//! What each request does, in terms of what is asked and what was kept: the
//! status and the body of the reply, the changes, and the contents afterwards.

use vstd::prelude::*;
use crate::admin::AdminError;
use crate::admin;
use crate::attempt::ReviewView;
use crate::attempt;
use crate::course;
use crate::form::{FieldKind, FormView};
use crate::form;
use crate::integer;
use crate::laws;
use crate::matching::Evaluation;
use crate::matching;
use crate::forms;
use crate::order;
use crate::record::{AttemptView, QuestionView, Session};
use crate::reply::OutcomeView;
use crate::reply;
use crate::session;
use crate::tables::{ChangeView, Tables};
use crate::tables;
use crate::text;

verus! {

/// Whether the question `id` is there and none has a smaller position.
pub open spec fn least(questions: Map<i64, QuestionView>, id: i64) -> bool {
    &&& questions.contains_key(id)
    &&& forall|k: i64| #[trigger]
        questions.contains_key(k) ==> questions[id].position <= questions[k].position
}

/// Whether there is no question.
pub open spec fn no_questions(t: Tables) -> bool {
    forall|k: i64| !t.questions.contains_key(k)
}

/// Whether the question `id` is there, its position is larger than that of
/// `here`, and no question has a position between the two.
pub open spec fn follows(questions: Map<i64, QuestionView>, here: QuestionView, id: i64) -> bool {
    &&& questions.contains_key(id)
    &&& here.position < questions[id].position
    &&& forall|k: i64| #[trigger]
        questions.contains_key(k) && here.position < questions[k].position
            ==> questions[id].position <= questions[k].position
}

/// Whether no question has a larger position than `here`.
pub open spec fn nothing_follows(questions: Map<i64, QuestionView>, here: QuestionView) -> bool {
    forall|k: i64| #[trigger]
        questions.contains_key(k) ==> questions[k].position <= here.position
}

/// Questions come one before the other by their positions, and by their ids
/// where the positions are the same.
pub proof fn law_order_of_questions(a: QuestionView, b: QuestionView)
    ensures
        a.position < b.position ==> tables::before(a, b) && !tables::before(b, a),
        a.position == b.position && a.id < b.id ==> tables::before(a, b) && !tables::before(b, a),
        a.position == b.position && a.id == b.id ==> !tables::before(a, b),
{
}

/// The first question is the one with the smallest position, and there is one
/// exactly if there are questions.
pub proof fn law_first_question(t: Tables)
    requires
        tables::sound(t),
    ensures
        tables::first_question(t.questions) is None <==> no_questions(t),
        forall|id: i64|
            tables::first_question(t.questions) == Some(id) <==> #[trigger] least(t.questions, id),
{
    order::lemma_first_exists(t.questions);
    match tables::first_question(t.questions) {
        None => {
            assert forall|k: i64| !t.questions.contains_key(k) by {
                assert(!t.questions.dom().contains(k));
            }
            assert forall|id: i64| !#[trigger] least(t.questions, id) by {}
        },
        Some(first) => {
            assert(t.questions.dom().contains(first));
            assert(least(t.questions, first));
            assert forall|id: i64| #[trigger] least(t.questions, id) implies id == first by {
                assert(t.questions.contains_key(id));
                if id != first {
                    assert(t.questions[id].position != t.questions[first].position);
                }
            }
        },
    }
}

/// The question that follows is the one with the next larger position, and there
/// is one exactly if some position is larger.
pub proof fn law_next_question(t: Tables, here: i64)
    requires
        tables::sound(t),
        t.questions.contains_key(here),
    ensures
        ({
            let q = t.questions[here];
            let next = tables::next_question(t.questions, q);
            &&& next is None <==> nothing_follows(t.questions, q)
            &&& forall|id: i64| next == Some(id) <==> #[trigger] follows(t.questions, q, id)
        }),
{
    let q = t.questions[here];
    order::lemma_next_exists(t.questions, q);
    assert forall|k: i64| #[trigger] t.questions.contains_key(k) implies tables::before(
        q,
        t.questions[k],
    ) == (q.position < t.questions[k].position) by {
        if k != here {
            assert(t.questions[k].position != q.position);
        }
    }
    match tables::next_question(t.questions, q) {
        None => {
            assert forall|id: i64| !#[trigger] follows(t.questions, q, id) by {}
        },
        Some(next) => {
            assert forall|k: i64| #[trigger]
                t.questions.contains_key(k) && q.position
                    < t.questions[k].position implies t.questions[next].position
                <= t.questions[k].position by {
                assert(tables::before(q, t.questions[k]));
            }
            assert(follows(t.questions, q, next));
            assert forall|id: i64| #[trigger] follows(t.questions, q, id) implies id == next by {
                assert(t.questions.contains_key(id) && t.questions.contains_key(next));
                if id != next {
                    assert(t.questions[id].position != t.questions[next].position);
                }
            }
        },
    }
}

/// The listing of the questions holds every question once, by ascending position,
/// and there is only one such list.
pub proof fn law_listed_questions(t: Tables, list: Seq<QuestionView>, other: Seq<QuestionView>)
    requires
        tables::sound(t),
        tables::question_listing(t.questions, list),
    ensures
        forall|i: int, j: int|
            0 <= i < j < list.len() ==> (#[trigger] list[i]).position < (
            #[trigger] list[j]).position,
        forall|q: QuestionView| #[trigger]
            list.contains(q) <==> t.questions.contains_key(q.id) && t.questions[q.id] == q,
        tables::question_listing(t.questions, other) ==> list == other,
{
    assert forall|i: int, j: int| 0 <= i < j < list.len() implies (#[trigger] list[i]).position < (
    #[trigger] list[j]).position by {
        assert(tables::before(list[i], list[j]));
        assert(t.questions.contains_key(list[i].id) && t.questions.contains_key(list[j].id));
        if list[i].position == list[j].position {
            assert(list[i].id < list[j].id);
            assert(t.questions[list[i].id].position != t.questions[list[j].id].position);
        }
    }
    assert forall|q: QuestionView| #[trigger] list.contains(q) <==> t.questions.contains_key(q.id)
        && t.questions[q.id] == q by {
        if t.questions.contains_key(q.id) && t.questions[q.id] == q {
            let i = choose|i: int| 0 <= i < list.len() && (#[trigger] list[i]).id == q.id;
            assert(t.questions[list[i].id] == list[i]);
            assert(list[i] == q);
        }
    }
    if tables::question_listing(t.questions, other) {
        lemma_listing_unique(t.questions, list, other, list.len());
        lemma_listing_unique(t.questions, other, list, other.len());
        assert(list.take(list.len() as int) =~= list);
        assert(other.take(list.len() as int) =~= other);
    }
}

/// Two listings of the same questions agree on the first `n` entries of one.
proof fn lemma_listing_unique(
    questions: Map<i64, QuestionView>,
    a: Seq<QuestionView>,
    b: Seq<QuestionView>,
    n: nat,
)
    requires
        tables::question_listing(questions, a),
        tables::question_listing(questions, b),
        n <= a.len(),
    ensures
        n <= b.len(),
        a.take(n as int) == b.take(n as int),
    decreases n,
{
    if n == 0 {
        assert(a.take(0) =~= b.take(0));
    } else {
        let m = n - 1;
        lemma_listing_unique(questions, a, b, m as nat);
        if m > 0 {
            order::lemma_listing_next(questions, a, m - 1);
            order::lemma_listing_next(questions, b, m - 1);
            assert(a.take(m)[m - 1] == b.take(m)[m - 1]);
        } else {
            order::lemma_listing_first(questions, a);
            order::lemma_listing_first(questions, b);
        }
        assert(m < b.len());
        assert(a[m].id == b[m].id);
        assert(questions[a[m].id] == a[m] && questions[b[m].id] == b[m]);
        assert(a.take(n as int) =~= a.take(m).push(a[m]));
        assert(b.take(n as int) =~= b.take(m).push(b[m]));
    }
}

/// The listing of the attempts at a question holds every attempt at it once and
/// no other, by descending id.
pub proof fn law_listed_attempts(t: Tables, id: i64, list: Seq<AttemptView>)
    requires
        tables::sound(t),
        tables::attempt_listing(t.attempts, id, list),
    ensures
        forall|i: int, j: int|
            0 <= i < j < list.len() ==> (#[trigger] list[i]).id > (#[trigger] list[j]).id,
        forall|a: AttemptView| #[trigger]
            list.contains(a) <==> t.attempts.contains_key(a.id) && t.attempts[a.id] == a
                && a.question_id == id,
{
    assert forall|a: AttemptView| #[trigger] list.contains(a) <==> t.attempts.contains_key(a.id)
        && t.attempts[a.id] == a && a.question_id == id by {
        if t.attempts.contains_key(a.id) && t.attempts[a.id] == a && a.question_id == id {
            let i = choose|i: int| 0 <= i < list.len() && (#[trigger] list[i]).id == a.id;
            assert(t.attempts[list[i].id] == list[i]);
            assert(list[i] == a);
        }
    }
}

/// What must hold of the contents, no more and no less: limits of 2 to 10 minutes,
/// a text or an image and a solution to every question, different positions, ids
/// that were given, and attempts, sessions and a current question that belong to
/// questions that are there.
pub proof fn law_sound_contents(t: Tables)
    ensures
        tables::sound(t) <==> {
            &&& t.questions.dom().finite() && t.attempts.dom().finite() && t.sessions.dom().finite()
            &&& t.question_seq >= 0 && t.attempt_seq >= 0
            &&& forall|id: i64| #[trigger]
                t.questions.contains_key(id) ==> {
                    let q = t.questions[id];
                    &&& q.id == id && id <= t.question_seq
                    &&& 2 <= q.time_limit_minutes <= 10
                    &&& q.question_text is Some || q.question_image_path is Some
                    &&& q.solution_text is Some || q.solution_image_path is Some
                }
            &&& forall|a: i64, b: i64|
                #![trigger t.questions.contains_key(a), t.questions.contains_key(b)]
                t.questions.contains_key(a) && t.questions.contains_key(b) && t.questions[a].position
                    == t.questions[b].position ==> a == b
            &&& forall|id: i64| #[trigger]
                t.attempts.contains_key(id) ==> {
                    let a = t.attempts[id];
                    a.id == id && id <= t.attempt_seq && t.questions.contains_key(a.question_id)
                }
            &&& forall|id: i64| #[trigger]
                t.sessions.contains_key(id) ==> t.sessions[id].question_id == id
                    && t.questions.contains_key(id)
            &&& t.current matches Some(id) ==> t.questions.contains_key(id)
        },
{
    if tables::sound(t) {
        assert forall|a: i64, b: i64|
            #![trigger t.questions.contains_key(a), t.questions.contains_key(b)]
            t.questions.contains_key(a) && t.questions.contains_key(b) && t.questions[a].position
                == t.questions[b].position implies a == b by {
            if a != b {
                assert(t.questions[a].position != t.questions[b].position);
            }
        }
    }
}

/// What each change does to the contents, and that changes are made one after the other.
pub proof fn law_changes(
    t: Tables,
    q: QuestionView,
    a: AttemptView,
    s: Session,
    id: i64,
    current: Option<i64>,
    mark: bool,
    feedback: Option<Seq<char>>,
    at: Seq<char>,
    changes: Seq<ChangeView>,
    c: ChangeView,
)
    ensures
        tables::apply(t, ChangeView::InsertQuestion(q)) == (Tables {
            questions: t.questions.insert(q.id, q),
            question_seq: q.id,
            ..t
        }),
        tables::apply(t, ChangeView::InsertAttempt(a)) == (Tables {
            attempts: t.attempts.insert(a.id, a),
            attempt_seq: a.id,
            ..t
        }),
        t.attempts.contains_key(id) ==> tables::apply(
            t,
            ChangeView::MarkAttempt { id, is_correct: mark, feedback, reviewed_at: at },
        ) == (Tables {
            attempts: t.attempts.insert(
                id,
                AttemptView {
                    is_correct: Some(mark),
                    feedback,
                    reviewed_at: Some(at),
                    ..t.attempts[id]
                },
            ),
            ..t
        }),
        tables::apply(t, ChangeView::PutSession(s)) == (Tables {
            sessions: t.sessions.insert(s.question_id, s),
            ..t
        }),
        tables::apply(t, ChangeView::SelectQuestion(current)) == (Tables { current, ..t }),
        tables::apply_all(t, Seq::empty()) == t,
        tables::apply_all(t, changes.push(c)) == tables::apply(tables::apply_all(t, changes), c),
{
    assert(changes.push(c).drop_last() =~= changes);
}

/// A request for the admin is made by the admin exactly if the header, without
/// the white space around it, is the admin's token and is not empty; then it comes
/// to what it comes to, and else it is refused with status 401, a reason and no change.
pub proof fn law_admin_requests<V>(
    header: Option<Seq<char>>,
    token: Seq<char>,
    write_failure_status: u16,
    outcome: OutcomeView<V>,
)
    ensures
        ({
            let r = course::for_admin(header, token, write_failure_status, outcome);
            let given = match header {
                Some(h) => text::trimmed(h),
                None => Seq::empty(),
            };
            &&& given.len() > 0 && given == token ==> r == outcome
            &&& given.len() > 0 && given == token <==> admin::admin_verdict(header, token) is Ok
            &&& given.len() == 0 ==> r.body == Err::<V, Seq<char>>("missing x-admin-token header"@)
            &&& given.len() > 0 && given != token ==> r.body == Err::<V, Seq<char>>(
                "invalid admin token"@,
            )
            &&& !(given.len() > 0 && given == token) ==> r.status == 401 && r.changes.len() == 0
                && r.write_failure_status == write_failure_status
        }),
        header is None ==> admin::admin_verdict(header, token) == Err::<(), AdminError>(
            AdminError::MissingToken,
        ),
{
}

/// A request for the current question shows the one that the test is at; if it is
/// at none, the test goes to the question with the smallest position and shows that
/// one; and it is done only if there are no questions. Nothing else changes.
pub proof fn law_current_request(t: Tables, id: i64)
    requires
        tables::sound(t),
    ensures
        ({
            let r = course::current_outcome(t);
            let after = tables::apply_all(t, r.changes);
            &&& r.status == 200 && r.write_failure_status == 500
            &&& r.body is Ok
            &&& t.current == Some(id) ==> {
                &&& !r.body->Ok_0.done && r.body->Ok_0.question == Some(t.questions[id])
                &&& r.changes.len() == 0 && after == t
            }
            &&& t.current is None && least(t.questions, id) ==> {
                &&& !r.body->Ok_0.done && r.body->Ok_0.question == Some(t.questions[id])
                &&& r.changes == seq![ChangeView::SelectQuestion(Some(id))]
                &&& after == (Tables { current: Some(id), ..t })
            }
            &&& no_questions(t) ==> {
                &&& r.body->Ok_0.done && r.body->Ok_0.question is None
                &&& r.changes.len() == 0 && after == t
            }
        }),
{
    course::lemma_selected(t);
    law_first_question(t);
    if t.current is None && least(t.questions, id) {
        assert(course::selecting(t) =~= seq![ChangeView::SelectQuestion(Some(id))]);
    }
    if no_questions(t) {
        assert(t.current is None);
    }
}

/// A request to go on goes from the current question, or from the one with the
/// smallest position if the test is at none, to the one with the next larger
/// position and shows it; behind the last one the test is at none and done; and
/// without questions nothing happens.
pub proof fn law_next_request(t: Tables, here: i64, next: i64)
    requires
        tables::sound(t),
    ensures
        ({
            let r = course::next_outcome(t);
            let after = tables::apply_all(t, r.changes);
            let first = if t.current is None {
                seq![ChangeView::SelectQuestion(Some(here))]
            } else {
                Seq::empty()
            };
            let starts_here = t.current == Some(here) || (t.current is None && least(
                t.questions,
                here,
            ));
            &&& r.status == 200 && r.write_failure_status == 500
            &&& r.body is Ok
            &&& starts_here && follows(t.questions, t.questions[here], next) ==> {
                &&& !r.body->Ok_0.done
                &&& r.body->Ok_0.message == "moved to next question"@
                &&& r.body->Ok_0.next_question == Some(t.questions[next])
                &&& r.changes == first.push(ChangeView::SelectQuestion(Some(next)))
                &&& after == (Tables { current: Some(next), ..t })
            }
            &&& starts_here && nothing_follows(t.questions, t.questions[here]) ==> {
                &&& r.body->Ok_0.done
                &&& r.body->Ok_0.message == "test completed"@
                &&& r.body->Ok_0.next_question is None
                &&& r.changes == first.push(ChangeView::SelectQuestion(None))
                &&& after == (Tables { current: None, ..t })
            }
            &&& no_questions(t) ==> {
                &&& r.body->Ok_0.done
                &&& r.body->Ok_0.message == "no questions available"@
                &&& r.body->Ok_0.next_question is None
                &&& r.changes.len() == 0 && after == t
            }
        }),
{
    course::lemma_selected(t);
    law_first_question(t);
    laws::lemma_after_next(t);
    let s = course::selected(t);
    if t.current == Some(here) || (t.current is None && least(t.questions, here)) {
        assert(s.current == Some(here));
        law_next_question(t, here);
        if t.current is None {
            assert(course::selecting(t) =~= seq![ChangeView::SelectQuestion(Some(here))]);
        } else {
            assert(course::selecting(t) =~= Seq::empty());
        }
        if follows(t.questions, t.questions[here], next) {
            assert(tables::next_question(t.questions, t.questions[here]) == Some(next));
        }
    }
    if no_questions(t) {
        assert(t.current is None);
    }
}

/// A request to start over goes to the question with the smallest position,
/// wherever the test is, and shows it; without questions the test is done.
pub proof fn law_reset_request(t: Tables, id: i64)
    requires
        tables::sound(t),
    ensures
        ({
            let r = course::reset_outcome(t);
            let after = tables::apply_all(t, r.changes);
            let clear = ChangeView::SelectQuestion(None);
            &&& r.status == 200 && r.write_failure_status == 500
            &&& r.body is Ok
            &&& least(t.questions, id) ==> {
                &&& !r.body->Ok_0.done && r.body->Ok_0.question == Some(t.questions[id])
                &&& r.changes == seq![clear, ChangeView::SelectQuestion(Some(id))]
                &&& after == (Tables { current: Some(id), ..t })
            }
            &&& no_questions(t) ==> {
                &&& r.body->Ok_0.done && r.body->Ok_0.question is None
                &&& r.changes == seq![clear]
                &&& after == (Tables { current: None, ..t })
            }
        }),
{
    let clear = ChangeView::SelectQuestion(None);
    let u = course::unselected(t);
    assert(tables::sound(u));
    course::lemma_selected(u);
    law_first_question(t);
    laws::lemma_after_reset(t);
    if least(t.questions, id) {
        assert(seq![clear] + course::selecting(u) =~= seq![
            clear,
            ChangeView::SelectQuestion(Some(id)),
        ]);
    }
    if no_questions(t) {
        assert(seq![clear] + course::selecting(u) =~= seq![clear]);
    }
}

/// What a form is refused for: the first that holds of no expected answer, no
/// time limit, a time limit outside 2 to 10 minutes, neither text nor image,
/// neither solution text nor solution image, and a position that is not positive.
pub proof fn law_faults_of_a_form(f: FormView)
    ensures
        ({
            let fault = form::form_fault(f);
            let no_answer = f.expected_answer is None;
            let no_limit = f.time_limit_minutes is None;
            let bad_limit = f.time_limit_minutes matches Some(n) && (n < 2 || n > 10);
            let no_text = f.question_text is None && f.question_image_path is None;
            let no_solution = f.solution_text is None && f.solution_image_path is None;
            let bad_position = f.position matches Some(p) && p <= 0;
            let answered = !no_answer && !no_limit && !bad_limit;
            &&& no_answer ==> fault == Some("expected_answer is required"@)
            &&& !no_answer && no_limit ==> fault == Some("time_limit_minutes is required"@)
            &&& !no_answer && bad_limit ==> fault == Some(
                "time_limit_minutes must be between 2 and 10"@,
            )
            &&& answered && no_text ==> fault == Some(
                "question_text or question_image is required"@,
            )
            &&& answered && !no_text && no_solution ==> fault == Some(
                "solution_text or solution_image is required"@,
            )
            &&& answered && !no_text && !no_solution && bad_position ==> fault == Some(
                "position must be a positive integer"@,
            )
            &&& answered && !no_text && !no_solution && !bad_position ==> fault is None
        }),
{
}

/// A form that has a fault is refused with it, and changes nothing. Of a form
/// without fault a question is created unless its position is taken or the ids
/// are used up: with the next id, the time of creation, the texts, the images,
/// the expected answer, the solution and the time limit of the form, each as the
/// form has it; at the position of the form or, if it has none, one behind the
/// largest. The test stays where it is, or goes to the question with the smallest
/// position if it is at none.
pub proof fn law_create_request(t: Tables, f: FormView, created_at: Seq<char>, first: i64, last: i64)
    requires
        tables::sound(t),
        course::position_fits(t, f),
    ensures
        ({
            let r = course::create_outcome(t, f, created_at);
            let after = tables::apply_all(t, r.changes);
            let fault = form::form_fault(f);
            let taken = exists|k: i64| #[trigger]
                t.questions.contains_key(k) && Some(t.questions[k].position) == f.position;
            let inserted = fault is None && !taken && t.question_seq < i64::MAX;
            let q = r.body->Ok_0;
            &&& r.write_failure_status == 400
            &&& fault matches Some(words) ==> r.body == Err::<QuestionView, Seq<char>>(words)
            &&& fault is None && !inserted ==> r.body == Err::<QuestionView, Seq<char>>(
                "failed to insert question"@,
            )
            &&& !inserted ==> r.status == 400 && r.changes.len() == 0 && after == t
            &&& inserted ==> {
                &&& r.status == 201 && r.body is Ok
                &&& q.id == t.question_seq + 1
                &&& q.question_text == f.question_text
                &&& q.question_image_path == f.question_image_path
                &&& Some(q.expected_answer) == f.expected_answer
                &&& q.solution_text == f.solution_text
                &&& q.solution_image_path == f.solution_image_path
                &&& Some(q.time_limit_minutes) == f.time_limit_minutes
                &&& q.created_at == created_at
                &&& f.position matches Some(p) ==> q.position == p
                &&& f.position is None && no_questions(t) ==> q.position == 1
                &&& f.position is None && t.questions.contains_key(last) && nothing_follows(
                    t.questions,
                    t.questions[last],
                ) ==> q.position == t.questions[last].position + 1
                &&& after.questions == t.questions.insert(q.id, q)
                &&& after.question_seq == q.id
                &&& after == (Tables {
                    questions: after.questions,
                    question_seq: after.question_seq,
                    current: after.current,
                    ..t
                })
                &&& t.current is Some ==> after.current == t.current && r.changes == seq![
                    ChangeView::InsertQuestion(q),
                ]
                &&& t.current is None && least(after.questions, first) ==> after.current == Some(
                    first,
                ) && r.changes == seq![
                    ChangeView::InsertQuestion(q),
                    ChangeView::SelectQuestion(Some(first)),
                ]
                &&& t.current is None ==> after.current is Some && least(
                    after.questions,
                    after.current->0,
                )
            }
        }),
{
    let r = course::create_outcome(t, f, created_at);
    let fault = form::form_fault(f);
    let p = course::position_for(t, f);
    if fault is None {
        laws::lemma_append_position_free(t);
        if f.position is None {
            assert(!course::position_taken(t.questions, p as i64));
            assert forall|k: i64| #[trigger] t.questions.contains_key(k) implies Some(
                t.questions[k].position,
            ) != f.position by {}
            if t.questions.contains_key(last) && nothing_follows(t.questions, t.questions[last]) {
                assert(tables::is_last_position(t.questions, t.questions[last].position));
                order::lemma_last_position_unique(t.questions, t.questions[last].position);
            }
            if no_questions(t) {
                assert(!exists|x: i64| tables::is_last_position(t.questions, x)) by {
                    if exists|x: i64| tables::is_last_position(t.questions, x) {
                        let x = choose|x: i64| tables::is_last_position(t.questions, x);
                        let k = choose|k: i64| #[trigger]
                            t.questions.contains_key(k) && t.questions[k].position == x;
                        assert(t.questions.contains_key(k));
                    }
                }
            }
        }
        if r.body is Ok {
            laws::law_created_question_is_kept(t, f, created_at);
            let q = r.body->Ok_0;
            let insert = ChangeView::InsertQuestion(q);
            let s = tables::apply(t, insert);
            course::lemma_apply_one(t, insert);
            course::lemma_apply_all_concat(t, seq![insert], course::selecting(s));
            assert(tables::admissible(t, insert));
            tables::lemma_change_keeps_sound(t, insert);
            course::lemma_selected(s);
            law_first_question(s);
            assert(s.questions.contains_key(q.id));
            if t.current is Some {
                assert(seq![insert] + course::selecting(s) =~= seq![insert]);
            } else {
                let one = tables::first_question(s.questions);
                assert(one is Some);
                assert(least(s.questions, one->0));
                assert(seq![insert] + course::selecting(s) =~= seq![
                    insert,
                    ChangeView::SelectQuestion(one),
                ]);
            }
        }
    }
}

/// An answer with a hint is refused if it is blank, if there is no such question
/// or if the ids are used up. Else it is kept, without the white space around it,
/// as an attempt at that question under the next id, with that hint and that time,
/// not yet marked; and nothing else changes.
pub proof fn law_record_request(
    t: Tables,
    id: i64,
    answer: Seq<char>,
    hint: Option<bool>,
    now: Seq<char>,
)
    ensures
        ({
            let r = attempt::record_outcome(t, id, answer, hint, now);
            let after = tables::apply_all(t, r.changes);
            let blank = text::trimmed(answer).len() == 0;
            let kept = !blank && t.questions.contains_key(id) && t.attempt_seq < i64::MAX;
            let a = r.body->Ok_0;
            &&& r.write_failure_status == 400
            &&& blank ==> r.status == 400 && r.body == Err::<AttemptView, Seq<char>>(
                "submitted_answer is required"@,
            )
            &&& !blank && !t.questions.contains_key(id) ==> r.status == 404 && r.body == Err::<
                AttemptView,
                Seq<char>,
            >("question not found"@)
            &&& !blank && t.questions.contains_key(id) && !kept ==> r.status == 400 && r.body
                == Err::<AttemptView, Seq<char>>("failed to insert attempt"@)
            &&& !kept ==> r.changes.len() == 0 && after == t
            &&& kept ==> {
                &&& r.status == 201 && r.body is Ok
                &&& a.id == t.attempt_seq + 1
                &&& a.question_id == id
                &&& a.submitted_answer == text::trimmed(answer)
                &&& a.auto_match == hint
                &&& a.is_correct is None && a.feedback is None && a.reviewed_at is None
                &&& a.submitted_at == now
                &&& r.changes == seq![ChangeView::InsertAttempt(a)]
                &&& after == (Tables {
                    attempts: t.attempts.insert(a.id, a),
                    attempt_seq: a.id,
                    ..t
                })
            }
        }),
{
    let r = attempt::record_outcome(t, id, answer, hint, now);
    if r.body is Ok {
        course::lemma_apply_one(t, ChangeView::InsertAttempt(r.body->Ok_0));
    }
}

/// A submitted answer is kept with the hint that it gets against the expected
/// answer of the very question that it is submitted to, wherever the test is.
pub proof fn law_submit_request(
    t: Tables,
    id: i64,
    answer: Seq<char>,
    numbers: Option<bool>,
    rounds: Seq<Evaluation>,
    now: Seq<char>,
    elsewhere: Option<i64>,
)
    ensures
        ({
            let r = attempt::submit_outcome(t, id, answer, numbers, rounds, now);
            let after = tables::apply_all(t, r.changes);
            let a = r.body->Ok_0;
            let kept = text::trimmed(answer).len() > 0 && t.questions.contains_key(id)
                && t.attempt_seq < i64::MAX;
            &&& r.body is Ok <==> kept
            &&& text::trimmed(answer).len() == 0 ==> r.status == 400 && r.body == Err::<
                AttemptView,
                Seq<char>,
            >("submitted_answer is required"@)
            &&& text::trimmed(answer).len() > 0 && !t.questions.contains_key(id) ==> r.status == 404
                && r.body == Err::<AttemptView, Seq<char>>("question not found"@)
            &&& text::trimmed(answer).len() > 0 && t.questions.contains_key(id) && !kept
                ==> r.status == 400 && r.body == Err::<AttemptView, Seq<char>>(
                "failed to insert attempt"@,
            )
            &&& kept ==> r.status == 201
            &&& !kept ==> r.changes.len() == 0 && after == t
            &&& r.write_failure_status == 400
            &&& kept ==> {
                &&& a.auto_match == matching::answer_hint(
                    t.questions[id].expected_answer,
                    answer,
                    numbers,
                    rounds,
                )
                &&& a.question_id == id && a.id == t.attempt_seq + 1
                &&& a.submitted_answer == text::trimmed(answer) && a.submitted_at == now
                &&& a.is_correct is None && a.feedback is None && a.reviewed_at is None
                &&& r.changes == seq![ChangeView::InsertAttempt(a)]
                &&& after == (Tables {
                    attempts: t.attempts.insert(a.id, a),
                    attempt_seq: a.id,
                    ..t
                })
            }
            &&& r == attempt::submit_outcome(
                Tables { current: elsewhere, ..t },
                id,
                answer,
                numbers,
                rounds,
                now,
            )
        }),
{
    let hint = matching::answer_hint(
        t.questions[id].expected_answer,
        text::trimmed(answer),
        numbers,
        rounds,
    );
    forms::lemma_trimmed_twice(answer);
    law_record_request(t, id, answer, hint, now);
}

/// The hint on a submitted answer depends on nothing that is kept but the
/// question it is submitted to: contents that agree on that question give the
/// same hint.
pub proof fn law_hint_depends_on_the_question_alone(
    t: Tables,
    u: Tables,
    id: i64,
    answer: Seq<char>,
    numbers: Option<bool>,
    rounds: Seq<Evaluation>,
    now: Seq<char>,
    later: Seq<char>,
)
    requires
        text::trimmed(answer).len() > 0,
        t.questions.contains_key(id) && t.attempt_seq < i64::MAX,
        u.questions.contains_key(id) && u.attempt_seq < i64::MAX,
        t.questions[id].expected_answer == u.questions[id].expected_answer,
    ensures
        ({
            let a = attempt::submit_outcome(t, id, answer, numbers, rounds, now);
            let b = attempt::submit_outcome(u, id, answer, numbers, rounds, later);
            a.body->Ok_0.auto_match == b.body->Ok_0.auto_match
        }),
{
    law_submit_request(t, id, answer, numbers, rounds, now, None);
    law_submit_request(u, id, answer, numbers, rounds, later, None);
}

/// Whether `part` is what is shown of a part of the solution: what is to be shown
/// instead, if that is not blank, and else the question's own.
pub open spec fn shows(
    part: Option<Seq<char>>,
    instead: Option<Seq<char>>,
    own: Option<Seq<char>>,
) -> bool {
    &&& instead is None ==> part == own
    &&& instead matches Some(s) ==> (text::trimmed(s).len() > 0 ==> part == Some(s))
    &&& instead matches Some(s) ==> (text::trimmed(s).len() == 0 ==> part == own)
}

/// Marking an attempt that is there gives it the mark, the feedback and the time
/// of the review, and changes nothing else. The solution goes with the reply only
/// for a wrong answer and only if asked for; then the text and the image are each
/// shown by itself: what is to be shown instead, or else the question's own.
pub proof fn law_review_request(t: Tables, id: i64, b: ReviewView, now: Seq<char>)
    ensures
        ({
            let r = attempt::review_outcome(t, id, b, now);
            let after = tables::apply_all(t, r.changes);
            let before = t.attempts[id];
            let q = t.questions[before.question_id];
            let a = r.body->Ok_0.attempt;
            let shared = !b.is_correct && b.share_solution == Some(true);
            &&& r.write_failure_status == 400
            &&& !t.attempts.contains_key(id) ==> {
                &&& r.status == 404
                &&& r.body is Err && r.body->Err_0 == "attempt not found"@
                &&& r.changes.len() == 0 && after == t
            }
            &&& t.attempts.contains_key(id) ==> {
                &&& r.status == 200 && r.body is Ok
                &&& a.is_correct == Some(b.is_correct)
                &&& a.feedback == b.feedback
                &&& a.reviewed_at == Some(now)
                &&& a.id == before.id && a.question_id == before.question_id
                &&& a.submitted_answer == before.submitted_answer
                &&& a.auto_match == before.auto_match
                &&& a.submitted_at == before.submitted_at
                &&& r.changes == seq![
                    ChangeView::MarkAttempt {
                        id,
                        is_correct: b.is_correct,
                        feedback: b.feedback,
                        reviewed_at: now,
                    },
                ]
                &&& after == (Tables { attempts: t.attempts.insert(id, a), ..t })
                &&& shared ==> shows(
                    r.body->Ok_0.solution_text,
                    b.solution_text_to_show,
                    q.solution_text,
                )
                &&& shared ==> shows(
                    r.body->Ok_0.solution_image_path,
                    b.solution_image_to_show,
                    q.solution_image_path,
                )
                &&& !shared ==> r.body->Ok_0.solution_text is None
                    && r.body->Ok_0.solution_image_path is None
            }
        }),
{
    let changes = attempt::review_outcome(t, id, b, now).changes;
    if t.attempts.contains_key(id) {
        assert(changes =~= seq![changes[0]]);
        course::lemma_apply_one(t, changes[0]);
    }
}

/// Starting the session of a question, whatever sessions there were before: the
/// reply and the session that is kept are of that question, start now, last as
/// many minutes as the question allows, and are not timed out; and the status read
/// at once says the same. Nothing but the session of that question changes.
pub proof fn law_start_request(t: Tables, id: i64, now: i64)
    requires
        tables::sound(t),
        session::clock_second(now),
    ensures
        ({
            let r = session::start_outcome(t, id, now);
            let after = tables::apply_all(t, r.changes);
            let s = r.body->Ok_0;
            let kept = after.sessions[id];
            let status = session::status_outcome(after, id, now);
            &&& r.write_failure_status == 400
            &&& !t.questions.contains_key(id) ==> {
                &&& r.status == 404
                &&& r.body is Err && r.body->Err_0 == "question not found"@
                &&& r.changes.len() == 0 && after == t
            }
            &&& t.questions.contains_key(id) ==> {
                &&& r.status == 200 && r.body is Ok
                &&& s.question_id == id
                &&& s.started_at_unix == now
                &&& s.expires_at_unix == now + 60 * t.questions[id].time_limit_minutes
                &&& s.remaining_seconds == 60 * t.questions[id].time_limit_minutes
                &&& !s.timed_out
                &&& kept.question_id == id
                &&& kept.started_at_unix == now
                &&& kept.expires_at_unix == s.expires_at_unix
                &&& r.changes == seq![ChangeView::PutSession(kept)]
                &&& after == (Tables { sessions: t.sessions.insert(id, kept), ..t })
                &&& status.body is Ok
                &&& status.body->Ok_0.question_id == s.question_id
                &&& status.body->Ok_0.started
                &&& status.body->Ok_0.started_at_unix == Some(s.started_at_unix)
                &&& status.body->Ok_0.expires_at_unix == Some(s.expires_at_unix)
                &&& status.body->Ok_0.remaining_seconds == s.remaining_seconds
                &&& status.body->Ok_0.timed_out == s.timed_out
            }
        }),
{
    if t.questions.contains_key(id) {
        let minutes = t.questions[id].time_limit_minutes;
        course::lemma_apply_one(
            t,
            ChangeView::PutSession(session::session_from(id, minutes, now)),
        );
        assert(tables::valid_question(t.questions[id]));
    }
}

/// The status of the session of a question that is there: not started if there is
/// no session; else with its start and its end, the seconds from now to its end, or
/// none from its end on, and timed out exactly from its end on.
pub proof fn law_status_request(t: Tables, id: i64, now: i64)
    requires
        tables::sound(t),
        session::clock_second(now),
    ensures
        ({
            let r = session::status_outcome(t, id, now);
            let s = r.body->Ok_0;
            let kept = t.sessions[id];
            &&& r.write_failure_status == 400 && r.changes.len() == 0
            &&& !t.questions.contains_key(id) ==> {
                &&& r.status == 404
                &&& r.body is Err && r.body->Err_0 == "question not found"@
            }
            &&& t.questions.contains_key(id) ==> {
                &&& r.status == 200 && r.body is Ok
                &&& s.question_id == id
                &&& s.started <==> t.sessions.contains_key(id)
                &&& !t.sessions.contains_key(id) ==> {
                    &&& s.started_at_unix is None && s.expires_at_unix is None
                    &&& s.remaining_seconds == 0 && !s.timed_out
                }
                &&& t.sessions.contains_key(id) ==> {
                    &&& s.started_at_unix == Some(kept.started_at_unix)
                    &&& s.expires_at_unix == Some(kept.expires_at_unix)
                    &&& now < kept.expires_at_unix ==> now + s.remaining_seconds
                        == kept.expires_at_unix && !s.timed_out
                    &&& now >= kept.expires_at_unix ==> s.remaining_seconds == 0 && s.timed_out
                }
            }
        }),
{
}

/// Filling in a text field sets the field of that name to the text without the
/// white space around it, unless it is blank, and no other; the time limit and the
/// position must be whole numbers, and only a position may be blank.
pub proof fn law_text_fields(f: FormView, name: Seq<char>, value: Seq<char>)
    ensures
        ({
            let v = text::trimmed(value);
            let r = form::with_text(f, name, value);
            let g = r->Ok_0;
            let n = integer::read_integer(v);
            let number = name == "time_limit_minutes"@ || (name == "position"@ && v.len() > 0);
            &&& r is Err <==> number && n is Err
            &&& r is Err ==> r->Err_0 == n->Err_0
            &&& r is Ok ==> {
                &&& g.question_text == if name == "question_text"@ && v.len() > 0 {
                    Some(v)
                } else {
                    f.question_text
                }
                &&& g.expected_answer == if name == "expected_answer"@ && v.len() > 0 {
                    Some(v)
                } else {
                    f.expected_answer
                }
                &&& g.solution_text == if name == "solution_text"@ && v.len() > 0 {
                    Some(v)
                } else {
                    f.solution_text
                }
                &&& g.time_limit_minutes == if name == "time_limit_minutes"@ {
                    Some(n->Ok_0)
                } else {
                    f.time_limit_minutes
                }
                &&& g.position == if name == "position"@ && v.len() > 0 {
                    Some(n->Ok_0)
                } else {
                    f.position
                }
                &&& g.question_image_path == f.question_image_path
                &&& g.solution_image_path == f.solution_image_path
            }
        }),
{
    lemma_field_names();
}

/// Filling in an image sets the image of that name to the path, and nothing else.
pub proof fn law_image_fields(f: FormView, name: Seq<char>, path: Seq<char>)
    ensures
        ({
            let g = form::with_image(f, name, path);
            &&& g.question_image_path == if name == "question_image"@ {
                Some(path)
            } else {
                f.question_image_path
            }
            &&& g.solution_image_path == if name == "solution_image"@ {
                Some(path)
            } else {
                f.solution_image_path
            }
            &&& g == (FormView {
                question_image_path: g.question_image_path,
                solution_image_path: g.solution_image_path,
                ..f
            })
        }),
        ({
            let g = form::blank_form();
            &&& g.question_text is None && g.question_image_path is None
            &&& g.expected_answer is None && g.solution_text is None
            &&& g.solution_image_path is None && g.time_limit_minutes is None
            &&& g.position is None
        }),
{
    lemma_field_names();
}

/// A field holds a text or an image exactly if filling it in can do something.
pub proof fn law_kinds_of_fields(name: Seq<char>)
    ensures
        form::kind_of_field(name) == FieldKind::Text <==> name == "question_text"@ || name
            == "expected_answer"@ || name == "solution_text"@ || name == "time_limit_minutes"@
            || name == "position"@,
        form::kind_of_field(name) == FieldKind::Image <==> name == "question_image"@ || name
            == "solution_image"@,
{
    lemma_field_names();
}

/// The names of the fields are different.
proof fn lemma_field_names()
    ensures
        "question_text"@ != "expected_answer"@,
        "question_text"@ != "solution_text"@,
        "question_text"@ != "time_limit_minutes"@,
        "question_text"@ != "position"@,
        "question_text"@ != "question_image"@,
        "question_text"@ != "solution_image"@,
        "expected_answer"@ != "solution_text"@,
        "expected_answer"@ != "time_limit_minutes"@,
        "expected_answer"@ != "position"@,
        "expected_answer"@ != "question_image"@,
        "expected_answer"@ != "solution_image"@,
        "solution_text"@ != "time_limit_minutes"@,
        "solution_text"@ != "position"@,
        "solution_text"@ != "question_image"@,
        "solution_text"@ != "solution_image"@,
        "time_limit_minutes"@ != "position"@,
        "time_limit_minutes"@ != "question_image"@,
        "time_limit_minutes"@ != "solution_image"@,
        "position"@ != "question_image"@,
        "position"@ != "solution_image"@,
        "question_image"@ != "solution_image"@,
{
    reveal_strlit("question_text");
    reveal_strlit("expected_answer");
    reveal_strlit("solution_text");
    reveal_strlit("time_limit_minutes");
    reveal_strlit("position");
    reveal_strlit("question_image");
    reveal_strlit("solution_image");
    assert("question_text"@[9] != "expected_answer"@[9]);
    assert("question_text"@[0] != "solution_text"@[0]);
    assert("question_text"@[9] != "question_image"@[9]);
    assert("question_text"@[0] != "solution_image"@[0]);
    assert("expected_answer"@[0] != "solution_text"@[0]);
    assert("solution_text"@[9] != "solution_image"@[9]);
    assert("question_image"@[0] != "solution_image"@[0]);
    assert("time_limit_minutes"@[0] != "position"@[0]);
}

/// What a reply names if a change cannot be written.
pub proof fn law_failed_writes(c: ChangeView)
    ensures
        c is InsertQuestion ==> reply::failure_words(c) == Some("failed to insert question"@),
        c is InsertAttempt ==> reply::failure_words(c) == Some("failed to insert attempt"@),
        c is MarkAttempt ==> reply::failure_words(c) == Some("failed to update attempt"@),
        c is PutSession || c is SelectQuestion ==> reply::failure_words(c) is None,
{
}

} // verus!
