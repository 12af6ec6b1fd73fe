//! What holds of the backend as a whole.

use vstd::prelude::*;
use crate::admin;
use crate::attempt::ReviewView;
use crate::attempt;
use crate::course::NextView;
use crate::course;
use crate::equation;
use crate::form::FormView;
use crate::forms;
use crate::form;
use crate::integer::IntegerError;
use crate::integer;
use crate::matching::Evaluation;
use crate::matching;
use crate::order;
use crate::path;
use crate::record::{AttemptView, QuestionView};
use crate::record;
use crate::reply::OutcomeView;
use crate::reply;
use crate::session;
use crate::tables::{ChangeView, Tables};
use crate::tables;
use crate::text;
use crate::upload;
use crate::variables;

verus! {

/// A request that only the admin may make, made without the admin's token, is
/// answered with status 401 and the reason, and changes nothing.
pub proof fn law_refused_request_changes_nothing<V>(
    t: Tables,
    header: Option<Seq<char>>,
    admin_token: Seq<char>,
    write_failure_status: u16,
    outcome: OutcomeView<V>,
)
    requires
        admin::admin_verdict(header, admin_token) is Err,
    ensures
        ({
            let r = course::for_admin(header, admin_token, write_failure_status, outcome);
            &&& r.status == 401
            &&& r.body == Err::<V, Seq<char>>(
                admin::admin_verdict(header, admin_token)->Err_0.words(),
            )
            &&& tables::apply_all(t, r.changes) == t
        }),
{
}

/// With an empty admin token, no request is taken for one of the admin.
pub proof fn law_empty_token_admits_nobody(header: Option<Seq<char>>)
    ensures
        admin::admin_verdict(header, Seq::empty()) is Err,
{
    let token = match header {
        Some(h) => text::trimmed(h),
        None => Seq::empty(),
    };
    if token.len() == 0 {
        assert(token =~= Seq::empty());
    }
}

/// A request that is answered with an error changes nothing.
pub proof fn law_errors_change_nothing(
    t: Tables,
    f: FormView,
    id: i64,
    answer: Seq<char>,
    numbers: Option<bool>,
    rounds: Seq<Evaluation>,
    b: ReviewView,
    now: i64,
    stamp: Seq<char>,
)
    ensures
        ({
            let r = course::create_outcome(t, f, stamp);
            r.body is Err ==> r.status == 400 && tables::apply_all(t, r.changes) == t
        }),
        ({
            let r = attempt::submit_outcome(t, id, answer, numbers, rounds, stamp);
            r.body is Err ==> (r.status == 400 || r.status == 404) && tables::apply_all(
                t,
                r.changes,
            ) == t
        }),
        ({
            let r = attempt::review_outcome(t, id, b, stamp);
            r.body is Err ==> r.status == 404 && tables::apply_all(t, r.changes) == t
        }),
        ({
            let r = session::start_outcome(t, id, now);
            r.body is Err ==> r.status == 404 && tables::apply_all(t, r.changes) == t
        }),
{
}

/// The requests that go through the test change nothing but where the test is.
pub proof fn law_course_changes_only_current(t: Tables)
    requires
        tables::sound(t),
    ensures
        ({
            let a = tables::apply_all(t, course::current_outcome(t).changes);
            let b = tables::apply_all(t, course::next_outcome(t).changes);
            let c = tables::apply_all(t, course::reset_outcome(t).changes);
            &&& a == (Tables { current: a.current, ..t })
            &&& b == (Tables { current: b.current, ..t })
            &&& c == (Tables { current: c.current, ..t })
        }),
{
    course::lemma_selected(t);
    course::lemma_selected(course::unselected(t));
    lemma_after_next(t);
    lemma_after_reset(t);
}

/// Where the test is after a request to go on.
pub proof fn lemma_after_next(t: Tables)
    requires
        tables::sound(t),
    ensures
        ({
            let s = course::selected(t);
            let after = tables::apply_all(t, course::next_outcome(t).changes);
            after == (Tables {
                current: match s.current {
                    None => None,
                    Some(id) => tables::next_question(s.questions, s.questions[id]),
                },
                ..t
            })
        }),
{
    let s = course::selected(t);
    course::lemma_selected(t);
    if s.current is Some {
        let next = tables::next_question(s.questions, s.questions[s.current->0]);
        let changes = course::selecting(t).push(ChangeView::SelectQuestion(next));
        assert(changes.drop_last() =~= course::selecting(t));
        assert(course::next_outcome(t).changes == changes);
    }
}

/// Where the test is after a request to start over.
pub proof fn lemma_after_reset(t: Tables)
    requires
        tables::sound(t),
    ensures
        tables::apply_all(t, course::reset_outcome(t).changes) == (Tables {
            current: tables::first_question(t.questions),
            ..t
        }),
{
    let clear = ChangeView::SelectQuestion(None);
    let s = course::unselected(t);
    assert(tables::sound(s));
    course::lemma_selected(s);
    course::lemma_apply_one(t, clear);
    course::lemma_apply_all_concat(t, seq![clear], course::selecting(s));
}

/// Starting over goes to the first question in the order of the test, and shows
/// it; without questions the test is done.
pub proof fn law_reset_goes_to_first(t: Tables)
    requires
        tables::sound(t),
    ensures
        ({
            let r = course::reset_outcome(t);
            let after = tables::apply_all(t, r.changes);
            &&& after.current == tables::first_question(t.questions)
            &&& r.body->Ok_0 == course::current_body(after)
            &&& r.body->Ok_0.done <==> t.questions.dom() =~= Set::empty()
            &&& after.current matches Some(id) ==> tables::is_first(t.questions, id)
        }),
{
    lemma_after_reset(t);
    order::lemma_first_exists(t.questions);
    course::lemma_selected(course::unselected(t));
}

/// Starting over twice is starting over once.
pub proof fn law_reset_twice(t: Tables)
    requires
        tables::sound(t),
    ensures
        ({
            let once = tables::apply_all(t, course::reset_outcome(t).changes);
            &&& tables::apply_all(once, course::reset_outcome(once).changes) == once
            &&& course::reset_outcome(once).body == course::reset_outcome(t).body
        }),
{
    let once = tables::apply_all(t, course::reset_outcome(t).changes);
    lemma_after_reset(t);
    order::lemma_first_exists(t.questions);
    assert(tables::sound(once));
    lemma_after_reset(once);
    assert(course::unselected(once) == course::unselected(t));
}

/// As long as there are questions, a request for the current one shows one and
/// never says that the test is done; a second request shows the same and changes nothing.
pub proof fn law_current_question(t: Tables)
    requires
        tables::sound(t),
    ensures
        ({
            let r = course::current_outcome(t);
            let after = tables::apply_all(t, r.changes);
            &&& r.body->Ok_0.done <==> t.questions.dom() =~= Set::empty()
            &&& r.body->Ok_0.question is Some <==> !r.body->Ok_0.done
            &&& t.current matches Some(id) ==> r.body->Ok_0.question == Some(t.questions[id])
            &&& course::current_outcome(after).body == r.body
            &&& course::current_outcome(after).changes =~= Seq::empty()
        }),
{
    course::lemma_selected(t);
    order::lemma_first_exists(t.questions);
    let after = course::selected(t);
    course::lemma_selected(after);
    if t.current is None && tables::first_question(t.questions) is None {
        assert(after == t);
    }
    if t.current is Some {
        assert(t.questions.dom().contains(t.current->0));
    }
}

/// Going on never goes back: the question that is shown comes after the current
/// one, and no question lies between them.
pub proof fn law_next_goes_forward(t: Tables)
    requires
        tables::sound(t),
        t.current is Some,
    ensures
        ({
            let here = t.questions[t.current->0];
            let r = course::next_outcome(t);
            let after = tables::apply_all(t, r.changes);
            &&& r.body->Ok_0.next_question matches Some(q) ==> {
                &&& !r.body->Ok_0.done
                &&& after.current == Some(q.id)
                &&& t.questions.contains_key(q.id) && t.questions[q.id] == q
                &&& tables::before(here, q)
                &&& forall|k: i64| #[trigger]
                    t.questions.contains_key(k) ==> !(tables::before(here, t.questions[k])
                        && tables::before(t.questions[k], q))
            }
            &&& r.body->Ok_0.next_question is None ==> {
                &&& r.body->Ok_0.done
                &&& after.current is None
                &&& forall|k: i64| #[trigger]
                    t.questions.contains_key(k) ==> !tables::before(here, t.questions[k])
            }
        }),
{
    course::lemma_selected(t);
    lemma_after_next(t);
    order::lemma_next_exists(t.questions, t.questions[t.current->0]);
}

/// The contents after the test has been started over and gone on `steps` times.
pub open spec fn after_steps(t: Tables, steps: nat) -> Tables
    decreases steps,
{
    if steps == 0 {
        tables::apply_all(t, course::reset_outcome(t).changes)
    } else {
        let s = after_steps(t, (steps - 1) as nat);
        tables::apply_all(s, course::next_outcome(s).changes)
    }
}

/// Started over, the test goes through all questions in the order in which they
/// are listed, each once, and is at none after the last.
pub proof fn law_test_visits_every_question(t: Tables, list: Seq<QuestionView>, steps: nat)
    requires
        tables::sound(t),
        tables::question_listing(t.questions, list),
        list.len() > 0,
        steps <= list.len(),
    ensures
        after_steps(t, steps) == (Tables {
            current: if steps < list.len() {
                Some(list[steps as int].id)
            } else {
                None
            },
            ..t
        }),
        0 < steps < list.len() ==> course::next_outcome(after_steps(t, (steps - 1) as nat)).body
            == Ok::<NextView, Seq<char>>(
            NextView {
                done: false,
                message: "moved to next question"@,
                next_question: Some(list[steps as int]),
            },
        ),
        steps == list.len() ==> course::next_outcome(after_steps(t, (steps - 1) as nat)).body == Ok::<
            NextView,
            Seq<char>,
        >(NextView { done: true, message: "test completed"@, next_question: None }),
    decreases steps,
{
    if steps == 0 {
        lemma_after_reset(t);
        order::lemma_listing_first(t.questions, list);
    } else {
        let before = (steps - 1) as nat;
        law_test_visits_every_question(t, list, before);
        let s = after_steps(t, before);
        assert(t.questions.contains_key(list[before as int].id));
        assert(tables::sound(s));
        course::lemma_selected(s);
        lemma_after_next(s);
        order::lemma_listing_next(t.questions, list, before as int);
        if steps < list.len() {
            assert(t.questions.contains_key(list[steps as int].id));
        }
    }
}

/// A session that has been started lasts exactly the time limit of its question:
/// it is read back with the seconds that are left, and is timed out from its end on.
pub proof fn law_session_runs_down(t: Tables, id: i64, started: i64, now: i64)
    requires
        tables::sound(t),
        t.questions.contains_key(id),
        session::clock_second(started),
        session::clock_second(now),
    ensures
        ({
            let limit = t.questions[id].time_limit_minutes * 60;
            let r = session::start_outcome(t, id, started);
            let after = tables::apply_all(t, r.changes);
            let s = session::status_outcome(after, id, now).body->Ok_0;
            &&& 120 <= limit <= 600
            &&& r.body->Ok_0.remaining_seconds == limit
            &&& r.body->Ok_0.expires_at_unix == started + limit
            &&& s.started && s.started_at_unix == Some(started)
            &&& s.expires_at_unix == Some(r.body->Ok_0.expires_at_unix)
            &&& now < started + limit ==> s.remaining_seconds == started + limit - now
                && !s.timed_out
            &&& now >= started + limit ==> s.remaining_seconds == 0 && s.timed_out
        }),
{
    let c = ChangeView::PutSession(
        session::session_from(id, t.questions[id].time_limit_minutes, started),
    );
    course::lemma_apply_one(t, c);
    assert(tables::valid_question(t.questions[id]));
}

/// A session is timed out exactly when it has been started and no seconds are left.
pub proof fn law_timed_out_means_nothing_left(t: Tables, id: i64, now: i64)
    requires
        tables::sound(t),
        t.questions.contains_key(id),
        session::clock_second(now),
    ensures
        ({
            let s = session::status_outcome(t, id, now).body->Ok_0;
            &&& s.timed_out <==> s.started && s.remaining_seconds == 0
            &&& s.remaining_seconds >= 0
            &&& s.started <==> t.sessions.contains_key(id)
        }),
{
}

/// Starting a session anew makes the earlier one forgotten, and leaves the
/// sessions of other questions alone.
pub proof fn law_restart_replaces_session(t: Tables, id: i64, first: i64, second: i64, other: i64)
    requires
        t.questions.contains_key(id),
        other != id,
    ensures
        ({
            let once = tables::apply_all(t, session::start_outcome(t, id, first).changes);
            let twice = tables::apply_all(once, session::start_outcome(once, id, second).changes);
            &&& twice == tables::apply_all(t, session::start_outcome(t, id, second).changes)
            &&& twice.sessions.contains_key(other) == t.sessions.contains_key(other)
            &&& t.sessions.contains_key(other) ==> twice.sessions[other] == t.sessions[other]
        }),
{
    let minutes = t.questions[id].time_limit_minutes;
    let a = session::session_from(id, minutes, first);
    let b = session::session_from(id, minutes, second);
    course::lemma_apply_one(t, ChangeView::PutSession(a));
    course::lemma_apply_one(t, ChangeView::PutSession(b));
    let once = tables::apply(t, ChangeView::PutSession(a));
    course::lemma_apply_one(once, ChangeView::PutSession(b));
    assert(once.sessions.insert(id, b) =~= t.sessions.insert(id, b));
}

/// A submitted answer is kept, not yet marked, and stands at the top of the list
/// of attempts at its question.
pub proof fn law_submitted_answer_is_listed_first(
    t: Tables,
    id: i64,
    answer: Seq<char>,
    numbers: Option<bool>,
    rounds: Seq<Evaluation>,
    now: Seq<char>,
    list: Seq<AttemptView>,
)
    requires
        tables::sound(t),
        attempt::submit_outcome(t, id, answer, numbers, rounds, now).body is Ok,
        tables::attempt_listing(t.attempts, id, list),
    ensures
        ({
            let r = attempt::submit_outcome(t, id, answer, numbers, rounds, now);
            let after = tables::apply_all(t, r.changes);
            let a = r.body->Ok_0;
            &&& tables::attempt_listing(after.attempts, id, seq![a] + list)
            &&& after.attempts.contains_key(a.id) && after.attempts[a.id] == a
            &&& a.is_correct is None && a.reviewed_at is None
            &&& forall|k: i64| #[trigger]
                t.attempts.contains_key(k) ==> after.attempts.contains_key(k)
                    && after.attempts[k] == t.attempts[k]
        }),
{
    let a = attempt::submit_outcome(t, id, answer, numbers, rounds, now).body->Ok_0;
    course::lemma_apply_one(t, ChangeView::InsertAttempt(a));
    if list.len() > 0 {
        assert(t.attempts.contains_key(list[0].id));
    }
    order::lemma_attempt_listing_insert(t.attempts, id, list, 0, a);
    assert(list.insert(0, a) =~= seq![a] + list);
}

/// A marked attempt is read back with its mark, its feedback and the time of the
/// review; the answer and the hint stay, and so do all other attempts.
pub proof fn law_marking_is_kept(t: Tables, id: i64, b: ReviewView, now: Seq<char>)
    requires
        t.attempts.contains_key(id),
    ensures
        ({
            let r = attempt::review_outcome(t, id, b, now);
            let after = tables::apply_all(t, r.changes);
            let a = after.attempts[id];
            &&& r.body->Ok_0.attempt == a
            &&& a.is_correct == Some(b.is_correct)
            &&& a.feedback == b.feedback
            &&& a.reviewed_at == Some(now)
            &&& a.submitted_answer == t.attempts[id].submitted_answer
            &&& a.auto_match == t.attempts[id].auto_match
            &&& a.question_id == t.attempts[id].question_id
            &&& after.attempts.dom() =~= t.attempts.dom()
            &&& forall|k: i64| #[trigger]
                t.attempts.contains_key(k) && k != id ==> after.attempts[k] == t.attempts[k]
        }),
{
    course::lemma_apply_one(t, attempt::review_outcome(t, id, b, now).changes[0]);
    let changes = attempt::review_outcome(t, id, b, now).changes;
    assert(changes =~= seq![changes[0]]);
}

/// The last marking counts: marking an attempt twice is marking it the second time.
pub proof fn law_last_marking_counts(
    t: Tables,
    id: i64,
    b: ReviewView,
    c: ReviewView,
    first: Seq<char>,
    second: Seq<char>,
)
    requires
        t.attempts.contains_key(id),
    ensures
        ({
            let once = tables::apply_all(t, attempt::review_outcome(t, id, b, first).changes);
            let twice = tables::apply_all(
                once,
                attempt::review_outcome(once, id, c, second).changes,
            );
            twice == tables::apply_all(t, attempt::review_outcome(t, id, c, second).changes)
        }),
{
    let x = attempt::review_outcome(t, id, b, first).changes;
    let y = attempt::review_outcome(t, id, c, second).changes;
    assert(x =~= seq![x[0]]);
    assert(y =~= seq![y[0]]);
    course::lemma_apply_one(t, x[0]);
    course::lemma_apply_one(t, y[0]);
    let once = tables::apply_all(t, x);
    let z = attempt::review_outcome(once, id, c, second).changes;
    assert(z =~= y);
    course::lemma_apply_one(once, y[0]);
    let mark = tables::marked(t.attempts[id], c.is_correct, c.feedback, second);
    assert(once.attempts.insert(id, mark) =~= t.attempts.insert(id, mark));
}

/// The solution is shown only with a wrong answer and only if asked for; then at
/// least one part of it is shown.
pub proof fn law_solution_is_shown_only_when_shared(
    t: Tables,
    id: i64,
    b: ReviewView,
    now: Seq<char>,
)
    requires
        tables::sound(t),
        t.attempts.contains_key(id),
    ensures
        ({
            let r = attempt::review_outcome(t, id, b, now).body->Ok_0;
            (r.solution_text is Some || r.solution_image_path is Some) <==> !b.is_correct
                && b.share_solution == Some(true)
        }),
{
    assert(tables::valid_question(t.questions[t.attempts[id].question_id]));
}

/// A created question is kept as the form has it, under a new id, and the
/// questions that were there stay as they are.
pub proof fn law_created_question_is_kept(t: Tables, f: FormView, created_at: Seq<char>)
    requires
        tables::sound(t),
        course::position_fits(t, f),
        course::create_outcome(t, f, created_at).body is Ok,
    ensures
        ({
            let r = course::create_outcome(t, f, created_at);
            let after = tables::apply_all(t, r.changes);
            let q = r.body->Ok_0;
            &&& tables::sound(after)
            &&& !t.questions.contains_key(q.id)
            &&& after.questions == t.questions.insert(q.id, q)
            &&& q.id > t.question_seq && after.question_seq == q.id
            &&& q.expected_answer == f.expected_answer->0
            &&& q.time_limit_minutes == f.time_limit_minutes->0
            &&& f.position matches Some(p) ==> q.position == p
            &&& t.current is Some ==> after.current == t.current
            &&& t.current is None ==> after.current == tables::first_question(after.questions)
        }),
{
    let q = course::created(t, f, created_at);
    let insert = ChangeView::InsertQuestion(q);
    assert(tables::admissible(t, insert)) by {
        if f.position is None {
            lemma_append_position_free(t);
        }
    }
    tables::lemma_change_keeps_sound(t, insert);
    let s = tables::apply(t, insert);
    course::lemma_apply_one(t, insert);
    course::lemma_apply_all_concat(t, seq![insert], course::selecting(s));
    course::lemma_selected(s);
}

/// No question lies at or behind the position behind all questions.
pub proof fn lemma_append_position_free(t: Tables)
    requires
        tables::sound(t),
    ensures
        forall|k: i64| #[trigger]
            t.questions.contains_key(k) ==> t.questions[k].position < tables::append_position(
                t.questions,
            ),
{
    if exists|k: i64| t.questions.contains_key(k) {
        lemma_last_position_exists(t.questions, t.questions.dom());
        let p = choose|p: i64| tables::is_last_position(t.questions, p);
        order::lemma_last_position_unique(t.questions, p);
    }
}

/// Where there are questions, one has the largest position.
proof fn lemma_last_position_exists(questions: Map<i64, QuestionView>, keys: Set<i64>)
    requires
        keys.finite(),
        keys == questions.dom(),
        exists|k: i64| questions.contains_key(k),
    ensures
        exists|p: i64| tables::is_last_position(questions, p),
    decreases keys.len(),
{
    let c = choose|k: i64| questions.contains_key(k);
    let rest = questions.remove(c);
    if exists|k: i64| rest.contains_key(k) {
        assert(rest.dom() =~= keys.remove(c));
        lemma_last_position_exists(rest, keys.remove(c));
        let p = choose|p: i64| tables::is_last_position(rest, p);
        let k = choose|k: i64| #[trigger] rest.contains_key(k) && rest[k].position == p;
        let q = if questions[c].position > p {
            questions[c].position
        } else {
            p
        };
        assert(questions.contains_key(k) && questions.contains_key(c));
        assert forall|m: i64| #[trigger] questions.contains_key(m) implies questions[m].position
            <= q by {
            if m != c {
                assert(rest.contains_key(m));
            }
        }
        assert(tables::is_last_position(questions, q));
    } else {
        assert forall|m: i64| #[trigger] questions.contains_key(m) implies questions[m].position
            <= questions[c].position by {
            if m != c {
                assert(rest.contains_key(m));
            }
        }
        assert(tables::is_last_position(questions, questions[c].position));
    }
}

/// A question that is created without a position is the last of the test.
pub proof fn law_question_without_position_goes_last(
    t: Tables,
    f: FormView,
    created_at: Seq<char>,
    list: Seq<QuestionView>,
)
    requires
        tables::sound(t),
        course::position_fits(t, f),
        f.position is None,
        form::form_fault(f) is None,
        t.question_seq < i64::MAX,
        tables::question_listing(t.questions, list),
    ensures
        ({
            let r = course::create_outcome(t, f, created_at);
            let after = tables::apply_all(t, r.changes);
            &&& r.body is Ok
            &&& tables::question_listing(after.questions, list.push(r.body->Ok_0))
        }),
{
    lemma_append_position_free(t);
    law_created_question_is_kept(t, f, created_at);
    let q = course::created(t, f, created_at);
    assert forall|i: int| 0 <= i < list.len() implies tables::before(#[trigger] list[i], q) by {
        assert(t.questions.contains_key(list[i].id));
    }
    order::lemma_question_listing_insert(t.questions, list, list.len() as int, q);
    assert(list.insert(list.len() as int, q) =~= list.push(q));
}

/// A form whose time limit lies outside 2 to 10 minutes creates nothing.
pub proof fn law_time_limit_is_enforced(t: Tables, f: FormView, created_at: Seq<char>)
    requires
        f.time_limit_minutes matches Some(n) ==> n < 2 || n > 10,
    ensures
        course::create_outcome(t, f, created_at).body is Err,
        tables::apply_all(t, course::create_outcome(t, f, created_at).changes) == t,
{
}

/// A flag is read back as it was kept.
pub proof fn law_flag_round_trip(v: bool)
    ensures
        record::flag_of(Some(record::flag_number(v))) == Some(v),
{
}

/// An answer that is not blank matches itself.
pub proof fn law_answer_matches_itself(
    answer: Seq<char>,
    numbers: Option<bool>,
    rounds: Seq<Evaluation>,
)
    requires
        text::trimmed(answer).len() > 0,
    ensures
        matching::answer_hint(answer, answer, numbers, rounds) == Some(true),
{
}

/// There is no hint where one of the answers is blank.
pub proof fn law_no_hint_on_blank_answer(
    expected: Seq<char>,
    submitted: Seq<char>,
    numbers: Option<bool>,
    rounds: Seq<Evaluation>,
)
    requires
        text::trimmed(expected).len() == 0 || text::trimmed(submitted).len() == 0,
    ensures
        matching::answer_hint(expected, submitted, numbers, rounds) is None,
{
}

/// The hint, and the variables with their sample values, do not depend on which
/// of the two answers is the expected one.
pub proof fn law_hint_is_symmetric(
    a: Seq<char>,
    b: Seq<char>,
    numbers: Option<bool>,
    rounds: Seq<Evaluation>,
)
    ensures
        matching::answer_hint(a, b, numbers, rounds) == matching::answer_hint(
            b,
            a,
            numbers,
            rounds,
        ),
        variables::variables(a, b) == variables::variables(b, a),
{
    variables::lemma_variables_symmetric(a, b);
    variables::lemma_variables_symmetric(
        equation::as_expression(text::trimmed(a)),
        equation::as_expression(text::trimmed(b)),
    );
}

/// Whether the rounds from `from` to before `to` were all close.
pub open spec fn all_close(rounds: Seq<Evaluation>, from: int, to: int) -> bool {
    forall|k: int| from <= k < to ==> #[trigger] matching::outcome(rounds, k) == Evaluation::Close
}

/// Expressions with variables match exactly if every round was close.
pub proof fn law_sampled_match_needs_every_round(rounds: Seq<Evaluation>)
    ensures
        matching::sampled_hint(rounds, 0) == Some(true) <==> all_close(
            rounds,
            0,
            matching::ROUNDS as int,
        ),
{
    lemma_sampled_match(rounds, 0);
}

proof fn lemma_sampled_match(rounds: Seq<Evaluation>, i: int)
    requires
        0 <= i <= matching::ROUNDS,
    ensures
        matching::sampled_hint(rounds, i) == Some(true) <==> all_close(
            rounds,
            i,
            matching::ROUNDS as int,
        ),
    decreases matching::ROUNDS - i,
{
    if i < matching::ROUNDS {
        lemma_sampled_match(rounds, i + 1);
        if all_close(rounds, i + 1, matching::ROUNDS as int) && matching::outcome(rounds, i)
            == Evaluation::Close {
            assert forall|k: int| i <= k < matching::ROUNDS implies #[trigger] matching::outcome(
                rounds,
                k,
            ) == Evaluation::Close by {}
        }
        if all_close(rounds, i, matching::ROUNDS as int) {
            assert(matching::outcome(rounds, i) == Evaluation::Close);
        }
    }
}

/// The first round that was not close decides on expressions with variables:
/// apart means different, and anything else means that there is no hint.
pub proof fn law_first_round_not_close_decides(rounds: Seq<Evaluation>, k: int)
    requires
        0 <= k < matching::ROUNDS,
        all_close(rounds, 0, k),
        matching::outcome(rounds, k) != Evaluation::Close,
    ensures
        matching::sampled_hint(rounds, 0) == if matching::outcome(rounds, k) == Evaluation::Apart {
            Some(false)
        } else {
            None
        },
{
    lemma_close_rounds_pass(rounds, 0, k);
}

proof fn lemma_close_rounds_pass(rounds: Seq<Evaluation>, i: int, k: int)
    requires
        0 <= i <= k < matching::ROUNDS,
        all_close(rounds, i, k),
    ensures
        matching::sampled_hint(rounds, i) == matching::sampled_hint(rounds, k),
    decreases k - i,
{
    if i < k {
        assert(matching::outcome(rounds, i) == Evaluation::Close);
        lemma_close_rounds_pass(rounds, i + 1, k);
    }
}

/// It makes no difference whether a power is written with `^` or with `**`: with
/// the same comparisons the hint on two answers is the same either way, and so
/// are the expressions that are compared.
pub proof fn law_caret_and_stars_are_the_same(
    expected: Seq<char>,
    submitted: Seq<char>,
    numbers: Option<bool>,
    rounds: Seq<Evaluation>,
)
    ensures
        equation::plain(equation::carets_as_stars(submitted)) == equation::plain(submitted),
        equation::as_expression(equation::carets_as_stars(submitted)) == equation::as_expression(
            submitted,
        ),
        matching::answer_hint(
            equation::carets_as_stars(expected),
            equation::carets_as_stars(submitted),
            numbers,
            rounds,
        ) == matching::answer_hint(expected, submitted, numbers, rounds),
{
    forms::lemma_compact_of_stars(submitted);
    forms::lemma_trimmed_of_stars(expected);
    forms::lemma_trimmed_of_stars(submitted);
    forms::lemma_compact_of_stars(text::trimmed(expected));
    forms::lemma_compact_of_stars(text::trimmed(submitted));
}

/// Spaces in an answer make no difference: answers that differ in spaces alone
/// have the same plain form and are compared as the same expression, and one
/// that is not blank matches the other.
pub proof fn law_spaces_do_not_matter(
    s: Seq<char>,
    t: Seq<char>,
    numbers: Option<bool>,
    rounds: Seq<Evaluation>,
)
    requires
        s.filter(|c: char| c != ' ') == t.filter(|c: char| c != ' '),
    ensures
        equation::plain(s) == equation::plain(t),
        equation::as_expression(s) == equation::as_expression(t),
        equation::plain(s.filter(|c: char| c != ' ')) == equation::plain(s),
        text::trimmed(s).len() > 0 ==> matching::answer_hint(s, t, numbers, rounds) == Some(true),
{
    forms::lemma_compact_without_spaces(s);
    forms::lemma_compact_without_spaces(t);
    forms::lemma_compact_shape(s);
    forms::lemma_compact_shape(t);
    forms::lemma_trimmed_twice(s);
    forms::lemma_trimmed_twice(t);
}

/// The compact form of an answer has no space, no caret and no white space at
/// its ends, is its own compact form, and has as many `=` as the answer.
pub proof fn law_compact_form(s: Seq<char>)
    ensures
        !equation::compact(s).contains(' '),
        !equation::compact(s).contains('^'),
        text::trimmed(equation::compact(s)) == equation::compact(s),
        equation::compact(equation::compact(s)) == equation::compact(s),
        text::count_of(equation::compact(s), '=') == text::count_of(s, '='),
{
    forms::lemma_compact_shape(s);
    forms::lemma_compact_stays(equation::compact(s));
    forms::lemma_compact_keeps_equals(s);
}

/// Joining the sides of a text with exactly one `=` leaves none; a text with
/// none or with several stays; and there is nothing to join a second time.
pub proof fn law_joined_sides(s: Seq<char>)
    ensures
        text::count_of(s, '=') == 1 ==> !equation::sides_joined(s).contains('='),
        text::count_of(s, '=') != 1 ==> equation::sides_joined(s) == s,
        equation::sides_joined(equation::sides_joined(s)) == equation::sides_joined(s),
{
    forms::lemma_sole_equals_is_one(s);
    if text::count_of(s, '=') == 1 {
        let e = equation::sides_joined(s);
        forms::lemma_sides_joined_chars(s, choose|i: int| equation::sole_equals(s, i));
        if exists|i: int| equation::sole_equals(e, i) {
            let i = choose|i: int| equation::sole_equals(e, i);
            assert(e[i] == '=');
        }
    }
}

/// The plain form of an answer whose compact form is ASCII has no space, no
/// caret, no capital and no white space at its ends, is its own plain form, and
/// has as many `=` as the answer.
pub proof fn law_plain_form(s: Seq<char>)
    requires
        text::ascii(equation::compact(s)),
    ensures
        ({
            let p = equation::plain(s);
            &&& !p.contains(' ')
            &&& !p.contains('^')
            &&& text::without_capitals(p)
            &&& text::trimmed(p) == p
            &&& equation::plain(p) == p
            &&& text::count_of(p, '=') == text::count_of(s, '=')
            &&& p.len() == 0 <==> text::trimmed(s).len() == 0
        }),
{
    let c = equation::compact(s);
    let p = equation::plain(s);
    forms::lemma_compact_shape(s);
    forms::lemma_lowered_compact(c);
    forms::lemma_compact_stays(p);
    forms::lemma_lowered_stays(p);
    forms::lemma_compact_keeps_equals(s);
    forms::lemma_count_lowered(c);
}

/// The expression of an answer whose compact form is ASCII: with exactly one `=`
/// in the answer it is the left side of the plain form minus the right side, and
/// no `=` is left; otherwise it is the plain form; and it is its own expression.
pub proof fn law_expression_form(s: Seq<char>, l: Seq<char>, r: Seq<char>)
    requires
        text::ascii(equation::compact(s)),
    ensures
        ({
            let p = equation::plain(s);
            let e = equation::as_expression(s);
            &&& text::count_of(s, '=') == 1 ==> !e.contains('=')
            &&& text::count_of(s, '=') == 1 && p == l + "="@ + r ==> e == "("@ + l + ")-("@ + r
                + ")"@
            &&& text::count_of(s, '=') == 1 ==> exists|i: int| equation::sole_equals(p, i)
            &&& text::count_of(s, '=') != 1 ==> e == p
            &&& equation::as_expression(e) == e
        }),
{
    let p = equation::plain(s);
    let e = equation::as_expression(s);
    law_plain_form(s);
    law_joined_sides(p);
    forms::lemma_sole_equals_is_one(p);
    forms::lemma_compact_shape(s);
    forms::lemma_lowered_compact(equation::compact(s));
    if text::count_of(s, '=') == 1 {
        let i = choose|i: int| equation::sole_equals(p, i);
        forms::lemma_sides_joined_at(p, i);
        forms::lemma_sides_joined_chars(p, i);
        assert forall|k: int| 0 <= k < e.len() implies (#[trigger] e[k]) != ' ' && e[k] != '^'
            && !text::capital(e[k]) && (e[k] as u32) < 128 by {
            if p.contains(e[k]) {
                let m = choose|m: int| 0 <= m < p.len() && p[m] == e[k];
                assert(p[m] == e[k]);
            }
        }
        forms::lemma_compact_stays(e);
        forms::lemma_lowered_stays(e);
        if p == l + "="@ + r {
            reveal_strlit("=");
            assert(p[l.len() as int] == '=');
            assert(i == l.len());
            assert(p.take(i) =~= l);
            assert(p.skip(i + 1) =~= r);
        }
    }
}

/// The case of ASCII letters makes no difference: answers whose compact forms
/// are ASCII and that differ in case alone have the same plain form and are
/// compared as the same expression, they give the same hint with the same
/// comparisons, and one that is not blank matches the other.
pub proof fn law_letter_case_does_not_matter(
    expected: Seq<char>,
    s: Seq<char>,
    t: Seq<char>,
    numbers: Option<bool>,
    rounds: Seq<Evaluation>,
)
    requires
        text::ascii(equation::compact(s)),
        text::ascii_lowered(s) == text::ascii_lowered(t),
    ensures
        equation::plain(s) == equation::plain(t),
        equation::as_expression(s) == equation::as_expression(t),
        matching::answer_hint(expected, s, numbers, rounds) == matching::answer_hint(
            expected,
            t,
            numbers,
            rounds,
        ),
        text::trimmed(s).len() > 0 ==> matching::answer_hint(s, t, numbers, rounds) == Some(true),
{
    forms::lemma_plain_without_case(s, t);
    forms::lemma_compact_of_trimmed(s);
    forms::lemma_compact_of_trimmed(t);
}

/// Answers with the same plain form match if neither is blank, whatever their
/// comparisons give.
pub proof fn law_same_plain_form_matches(
    expected: Seq<char>,
    submitted: Seq<char>,
    numbers: Option<bool>,
    rounds: Seq<Evaluation>,
)
    requires
        text::trimmed(expected).len() > 0,
        text::trimmed(submitted).len() > 0,
        equation::plain(expected) == equation::plain(submitted),
    ensures
        matching::answer_hint(expected, submitted, numbers, rounds) == Some(true),
{
    forms::lemma_compact_of_trimmed(expected);
    forms::lemma_compact_of_trimmed(submitted);
}

/// There is no hint on two different answers that are not both numbers if one
/// of them cannot be read as an expression.
pub proof fn law_unreadable_expression_has_no_hint(
    expected: Seq<char>,
    submitted: Seq<char>,
    rounds: Seq<Evaluation>,
)
    requires
        equation::plain(text::trimmed(expected)) != equation::plain(text::trimmed(submitted)),
        !matching::readable(equation::as_expression(text::trimmed(expected)))
            || !matching::readable(equation::as_expression(text::trimmed(submitted))),
    ensures
        matching::answer_hint(expected, submitted, None, rounds) is None,
{
}

/// In a round, different variables are given different values, as long as there
/// are no more variables than samples; and no variable is given a value twice.
pub proof fn law_samples_differ(vars: Seq<Seq<char>>, i: int, j: int, k: int)
    requires
        0 <= i < matching::ROUNDS,
        0 <= j < vars.len(),
        0 <= k,
    ensures
        ({
            let rounds = matching::planned_rounds(vars);
            &&& k < vars.len() <= matching::SAMPLES && j != k ==> rounds[i][j].1 != rounds[i][k].1
            &&& k < matching::ROUNDS && i != k ==> rounds[i][j].1 != rounds[k][j].1
        }),
{
    let rounds = matching::planned_rounds(vars);
    assert(rounds[i] == matching::planned_round(vars, i));
    if k < matching::ROUNDS {
        assert(rounds[k] == matching::planned_round(vars, k));
    }
}

/// A row of digits, with a sign or without, is read as the number it is written
/// as, exactly where that number fits in 64 bits.
pub proof fn law_whole_numbers_are_read(digits: Seq<char>)
    requires
        digits.len() > 0,
        forall|k: int| 0 <= k < digits.len() ==> integer::is_digit(#[trigger] digits[k]),
    ensures
        ({
            let n = integer::decimal(digits);
            let plain = integer::read_integer(digits);
            let minus = integer::read_integer(seq!['-'] + digits);
            &&& n <= i64::MAX ==> plain == Ok::<i64, IntegerError>(n as i64)
            &&& n > i64::MAX ==> plain == Err::<i64, IntegerError>(IntegerError::TooLarge)
            &&& integer::read_integer(seq!['+'] + digits) == plain
            &&& -n >= i64::MIN ==> minus == Ok::<i64, IntegerError>((-n) as i64)
            &&& -n < i64::MIN ==> minus == Err::<i64, IntegerError>(IntegerError::TooSmall)
        }),
{
    assert(integer::is_digit(digits[0]));
    integer::lemma_decimal_grows(digits, 0);
    integer::lemma_digits_read(digits, false, 0);
    integer::lemma_digits_read(digits, true, 0);
    assert((seq!['-'] + digits).skip(1) =~= digits);
    assert((seq!['+'] + digits).skip(1) =~= digits);
}

/// A form has no fault exactly if it has an expected answer, a time limit of 2
/// to 10 minutes, a text or an image, a solution as text or image, and either
/// no position or a positive one.
pub proof fn law_complete_form_has_no_fault(f: FormView)
    ensures
        form::form_fault(f) is None <==> {
            &&& f.expected_answer is Some
            &&& f.time_limit_minutes matches Some(n) && 2 <= n <= 10
            &&& f.question_text is Some || f.question_image_path is Some
            &&& f.solution_text is Some || f.solution_image_path is Some
            &&& f.position matches Some(p) ==> p > 0
        },
{
}

/// An image is kept in the directory of uploads itself, and under the extension
/// that its upload had in lower case.
pub proof fn law_image_stays_in_uploads(id: Seq<char>, extension: Seq<char>)
    requires
        upload::random_uuid(id),
        upload::image_extension(extension),
    ensures
        ({
            let name = id + "."@ + extension;
            &&& !name.contains('/')
            &&& path::file_name(name) == Some(name)
            &&& path::extension(name) == Some(extension)
        }),
{
    let name = id + "."@ + extension;
    reveal_strlit(".");
    reveal_strlit("..");
    reveal_strlit("png");
    reveal_strlit("jpg");
    reveal_strlit("jpeg");
    reveal_strlit("webp");
    assert forall|i: int| 0 <= i < name.len() implies name[i] != '/' && (name[i] == '.' <==> i == 36) by {
        if i < 36 {
            assert(name[i] == id[i]);
            if i != 8 && i != 13 && i != 18 && i != 23 {
                assert(upload::hex_digit(id[i]));
            }
        }
    }
    assert(path::without_tail(name) == name);
    lemma_through_last_absent(name, '/');
    assert(name.skip(0) =~= name);
    lemma_through_last_at(name, '.', 36);
    assert(name.skip(37) =~= extension);
}

/// A character that is not there has no last place.
pub proof fn lemma_through_last_absent(s: Seq<char>, c: char)
    requires
        forall|i: int| 0 <= i < s.len() ==> s[i] != c,
    ensures
        path::through_last(s, c) == 0,
    decreases s.len(),
{
    if s.len() > 0 {
        lemma_through_last_absent(s.drop_last(), c);
    }
}

/// A character that stands at `at` and not behind it has its last place there.
pub proof fn lemma_through_last_at(s: Seq<char>, c: char, at: int)
    requires
        0 <= at < s.len(),
        s[at] == c,
        forall|i: int| at < i < s.len() ==> s[i] != c,
    ensures
        path::through_last(s, c) == at + 1,
    decreases s.len(),
{
    if at < s.len() - 1 {
        lemma_through_last_at(s.drop_last(), c, at);
    }
}

} // verus!
