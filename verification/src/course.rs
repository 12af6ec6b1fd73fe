//! The course of the test: creating questions, and going from one to the next.

use vstd::prelude::*;
use crate::admin;
use crate::form::{FormView, QuestionForm};
use crate::form;
use crate::order;
use crate::record::{Question, QuestionView};
use crate::record;
use crate::reply::{Outcome, OutcomeView};
use crate::reply;
use crate::store::Store;
use crate::store;
use crate::tables::{Change, ChangeView, Tables};
use crate::tables;

verus! {

/// The question that the test is at.
#[derive(Debug)]
pub struct CurrentQuestionResponse {
    pub done: bool,
    pub question: Option<Question>,
}

/// A [`CurrentQuestionResponse`], by its values.
pub struct CurrentView {
    pub done: bool,
    pub question: Option<QuestionView>,
}

/// A question that may be missing, by its values.
pub open spec fn opt_question(q: Option<Question>) -> Option<QuestionView> {
    match q {
        Some(q) => Some(q@),
        None => None,
    }
}

impl View for CurrentQuestionResponse {
    type V = CurrentView;

    open spec fn view(&self) -> CurrentView {
        CurrentView { done: self.done, question: opt_question(self.question) }
    }
}

/// Where the test has gone to.
#[derive(Debug)]
pub struct NextQuestionResponse {
    pub done: bool,
    pub message: String,
    pub next_question: Option<Question>,
}

/// A [`NextQuestionResponse`], by its values.
pub struct NextView {
    pub done: bool,
    pub message: Seq<char>,
    pub next_question: Option<QuestionView>,
}

impl View for NextQuestionResponse {
    type V = NextView;

    open spec fn view(&self) -> NextView {
        NextView {
            done: self.done,
            message: self.message@,
            next_question: opt_question(self.next_question),
        }
    }
}

/// The changes by which a test that is at no question goes to its first one.
pub open spec fn selecting(t: Tables) -> Seq<ChangeView> {
    if t.current is None && tables::first_question(t.questions) is Some {
        seq![ChangeView::SelectQuestion(tables::first_question(t.questions))]
    } else {
        Seq::empty()
    }
}

/// The contents once a test that was at no question has gone to its first one.
pub open spec fn selected(t: Tables) -> Tables {
    tables::apply_all(t, selecting(t))
}

/// The reply that shows the current question.
pub open spec fn current_body(t: Tables) -> CurrentView {
    match t.current {
        Some(id) => CurrentView { done: false, question: Some(t.questions[id]) },
        None => CurrentView { done: true, question: None },
    }
}

/// What a request for the current question comes to.
pub open spec fn current_outcome(t: Tables) -> OutcomeView<CurrentView> {
    OutcomeView {
        status: reply::OK,
        body: Ok(current_body(selected(t))),
        changes: selecting(t),
        write_failure_status: reply::INTERNAL_SERVER_ERROR,
    }
}

/// What a request of the admin to go on comes to.
pub open spec fn next_outcome(t: Tables) -> OutcomeView<NextView> {
    let s = selected(t);
    match s.current {
        None => OutcomeView {
            status: reply::OK,
            body: Ok(
                NextView { done: true, message: "no questions available"@, next_question: None },
            ),
            changes: selecting(t),
            write_failure_status: reply::INTERNAL_SERVER_ERROR,
        },
        Some(id) => match tables::next_question(s.questions, s.questions[id]) {
            Some(next) => OutcomeView {
                status: reply::OK,
                body: Ok(
                    NextView {
                        done: false,
                        message: "moved to next question"@,
                        next_question: Some(s.questions[next]),
                    },
                ),
                changes: selecting(t).push(ChangeView::SelectQuestion(Some(next))),
                write_failure_status: reply::INTERNAL_SERVER_ERROR,
            },
            None => OutcomeView {
                status: reply::OK,
                body: Ok(NextView { done: true, message: "test completed"@, next_question: None }),
                changes: selecting(t).push(ChangeView::SelectQuestion(None)),
                write_failure_status: reply::INTERNAL_SERVER_ERROR,
            },
        },
    }
}

/// The contents once the test is at no question.
pub open spec fn unselected(t: Tables) -> Tables {
    tables::apply(t, ChangeView::SelectQuestion(None))
}

/// What a request of the admin to start over comes to.
pub open spec fn reset_outcome(t: Tables) -> OutcomeView<CurrentView> {
    OutcomeView {
        status: reply::OK,
        body: Ok(current_body(selected(unselected(t)))),
        changes: seq![ChangeView::SelectQuestion(None)] + selecting(unselected(t)),
        write_failure_status: reply::INTERNAL_SERVER_ERROR,
    }
}

/// What a request comes to that only the admin may make: a refusal with the
/// reason, or what it comes to for the admin.
pub open spec fn for_admin<V>(
    header: Option<Seq<char>>,
    admin_token: Seq<char>,
    write_failure_status: u16,
    outcome: OutcomeView<V>,
) -> OutcomeView<V> {
    match admin::admin_verdict(header, admin_token) {
        Err(e) => reply::refusal(reply::UNAUTHORIZED, e.words(), write_failure_status),
        Ok(_) => outcome,
    }
}

/// Whether a question has this position.
pub open spec fn position_taken(questions: Map<i64, QuestionView>, position: i64) -> bool {
    exists|k: i64| #[trigger] questions.contains_key(k) && questions[k].position == position
}

/// The position that a form asks for, or the one behind all questions.
pub open spec fn position_for(t: Tables, f: FormView) -> int {
    match f.position {
        Some(p) => p as int,
        None => tables::append_position(t.questions),
    }
}

/// The question that a form without fault creates.
pub open spec fn created(t: Tables, f: FormView, created_at: Seq<char>) -> QuestionView {
    QuestionView {
        id: (t.question_seq + 1) as i64,
        question_text: f.question_text,
        question_image_path: f.question_image_path,
        expected_answer: f.expected_answer->0,
        solution_text: f.solution_text,
        solution_image_path: f.solution_image_path,
        time_limit_minutes: f.time_limit_minutes->0,
        position: position_for(t, f) as i64,
        created_at,
    }
}

/// What a form comes to: a refusal for its fault; a refusal if the position is
/// taken or the ids are used up; else a new question, which the test goes to if
/// it is at none and the new one is the first.
pub open spec fn create_outcome(t: Tables, f: FormView, created_at: Seq<char>) -> OutcomeView<
    QuestionView,
> {
    match form::form_fault(f) {
        Some(fault) => reply::refusal(reply::BAD_REQUEST, fault, reply::BAD_REQUEST),
        None => if position_taken(t.questions, position_for(t, f) as i64) || t.question_seq
            == i64::MAX {
            reply::refusal(
                reply::BAD_REQUEST,
                "failed to insert question"@,
                reply::BAD_REQUEST,
            )
        } else {
            let q = created(t, f, created_at);
            let insert = ChangeView::InsertQuestion(q);
            OutcomeView {
                status: reply::CREATED,
                body: Ok(q),
                changes: seq![insert] + selecting(tables::apply(t, insert)),
                write_failure_status: reply::BAD_REQUEST,
            }
        },
    }
}

/// Whether the position behind all questions, where a form needs it, fits in 64 bits.
pub open spec fn position_fits(t: Tables, f: FormView) -> bool {
    form::form_fault(f) is None && f.position is None ==> tables::append_position(t.questions)
        <= i64::MAX
}

/// Changes made one list after the other are the changes of both lists.
pub proof fn lemma_apply_all_concat(t: Tables, a: Seq<ChangeView>, b: Seq<ChangeView>)
    ensures
        tables::apply_all(t, a + b) == tables::apply_all(tables::apply_all(t, a), b),
    decreases b.len(),
{
    if b.len() == 0 {
        assert(a + b =~= a);
    } else {
        lemma_apply_all_concat(t, a, b.drop_last());
        assert((a + b).drop_last() =~= a + b.drop_last());
        assert((a + b).last() == b.last());
    }
}

/// One change is the list of it alone.
pub proof fn lemma_apply_one(t: Tables, c: ChangeView)
    ensures
        tables::apply_all(t, seq![c]) == tables::apply(t, c),
{
    assert(seq![c].drop_last() =~= Seq::empty());
    assert(tables::apply_all(t, seq![c].drop_last()) == t);
}

/// In sound contents with a question, the question that [`selecting`] goes to is there.
pub proof fn lemma_selected(t: Tables)
    requires
        tables::sound(t),
    ensures
        selected(t).questions == t.questions,
        selected(t).attempts == t.attempts,
        selected(t).sessions == t.sessions,
        selected(t).question_seq == t.question_seq,
        selected(t).attempt_seq == t.attempt_seq,
        t.current is Some ==> selected(t) == t,
        t.current is None ==> selected(t).current == tables::first_question(t.questions),
        tables::sound(selected(t)),
{
    order::lemma_first_exists(t.questions);
    if t.current is None && tables::first_question(t.questions) is Some {
        lemma_apply_one(t, ChangeView::SelectQuestion(tables::first_question(t.questions)));
    }
}

/// Makes a change, and notes it.
pub(crate) fn make(store: &mut Store, changes: &mut Vec<Change>, change: Change)
    requires
        old(store).wf(),
        tables::admissible(old(store)@, change@),
    ensures
        final(store).wf(),
        final(store)@ == tables::apply(old(store)@, change@),
        tables::change_views(final(changes)@) == tables::change_views(old(changes)@).push(change@),
{
    store.commit(&change);
    changes.push(change);
    assert(tables::change_views(changes@) =~= tables::change_views(old(changes)@).push(change@));
}

impl Store {
    /// If the test is at no question, goes to the first one, and notes the change.
    pub fn ensure_current_question_selected(&mut self, changes: &mut Vec<Change>)
        requires
            old(self).wf(),
        ensures
            final(self).wf(),
            final(self)@ == selected(old(self)@),
            tables::change_views(final(changes)@) == tables::change_views(old(changes)@)
                + selecting(old(self)@),
    {
        let ghost t = self@;
        let ghost noted = tables::change_views(changes@);
        if self.current().is_some() {
            assert(noted + selecting(t) =~= noted);
            return ;
        }
        let first = self.first_question();
        proof {
            order::lemma_first_exists(t.questions);
        }
        if first.is_some() {
            make(self, changes, Change::SelectQuestion(first));
            proof {
                lemma_apply_one(t, ChangeView::SelectQuestion(first));
                assert(noted + selecting(t) =~= noted.push(ChangeView::SelectQuestion(first)));
            }
        } else {
            assert(noted + selecting(t) =~= noted);
        }
    }

    /// The question that the test is at, and that it is done if there is none.
    fn current_response(&self) -> (r: CurrentQuestionResponse)
        requires
            self.wf(),
        ensures
            r@ == current_body(self@),
    {
        match self.current() {
            Some(id) => match self.find_question(id) {
                Some(q) => CurrentQuestionResponse { done: false, question: Some(q.clone()) },
                None => {
                    assert(false);
                    CurrentQuestionResponse { done: true, question: None }
                },
            },
            None => CurrentQuestionResponse { done: true, question: None },
        }
    }

    /// Whether a question can be put behind all others.
    pub fn has_room_behind(&self) -> (r: bool)
        requires
            self.wf(),
        ensures
            r == (tables::append_position(self@.questions) <= i64::MAX),
    {
        match self.last_position() {
            Some(p) => p < i64::MAX,
            None => true,
        }
    }

    /// All questions in the order of the test.
    pub fn list_questions(&self) -> (r: Vec<Question>)
        requires
            self.wf(),
        ensures
            tables::question_listing(self@.questions, store::question_views(r@)),
    {
        self.load_all_questions()
    }

    /// Creates the question of a form.
    pub fn handle_create_question(&mut self, f: QuestionForm, created_at: &str) -> (r: Outcome<
        Question,
    >)
        requires
            old(self).wf(),
            position_fits(old(self)@, f@),
        ensures
            final(self).wf(),
            r@ == create_outcome(old(self)@, f@, created_at@),
            final(self)@ == tables::apply_all(old(self)@, r@.changes),
    {
        let ghost t = self@;
        if let Some(fault) = f.fault() {
            return reply::refuse(reply::BAD_REQUEST, fault, reply::BAD_REQUEST);
        }
        let position = match f.position {
            Some(p) => p,
            None => match self.last_position() {
                Some(p) => p + 1,
                None => 1,
            },
        };
        if self.position_taken(position) || self.question_seq() == i64::MAX {
            return reply::refuse(
                reply::BAD_REQUEST,
                "failed to insert question".to_string(),
                reply::BAD_REQUEST,
            );
        }
        let ghost form_view = f@;
        let q = Question {
            id: self.question_seq() + 1,
            question_text: f.question_text,
            question_image_path: f.question_image_path,
            expected_answer: f.expected_answer.unwrap(),
            solution_text: f.solution_text,
            solution_image_path: f.solution_image_path,
            time_limit_minutes: f.time_limit_minutes.unwrap(),
            position,
            created_at: created_at.to_string(),
        };
        assert(q@ == created(t, form_view, created_at@));
        let body = q.clone();
        let mut changes: Vec<Change> = Vec::new();
        let ghost insert = ChangeView::InsertQuestion(q@);
        assert(tables::change_views(changes@) =~= Seq::empty());
        make(self, &mut changes, Change::InsertQuestion(q));
        assert(tables::change_views(changes@) =~= seq![insert]);
        let ghost s = self@;
        self.ensure_current_question_selected(&mut changes);
        proof {
            lemma_apply_one(t, insert);
            lemma_apply_all_concat(t, seq![insert], selecting(s));
        }
        Outcome {
            status: reply::CREATED,
            body: Ok(body),
            changes,
            write_failure_status: reply::BAD_REQUEST,
        }
    }

    /// Shows the question that the test is at.
    pub fn get_current_question(&mut self) -> (r: Outcome<CurrentQuestionResponse>)
        requires
            old(self).wf(),
        ensures
            final(self).wf(),
            r@ == current_outcome(old(self)@),
            final(self)@ == tables::apply_all(old(self)@, r@.changes),
    {
        let mut changes: Vec<Change> = Vec::new();
        self.ensure_current_question_selected(&mut changes);
        assert(tables::change_views(changes@) =~= selecting(old(self)@));
        let body = self.current_response();
        Outcome {
            status: reply::OK,
            body: Ok(body),
            changes,
            write_failure_status: reply::INTERNAL_SERVER_ERROR,
        }
    }

    /// Goes to the question that follows the current one.
    pub fn move_to_next_question(&mut self, header: Option<&str>, admin_token: &str) -> (r: Outcome<
        NextQuestionResponse,
    >)
        requires
            old(self).wf(),
        ensures
            final(self).wf(),
            r@ == for_admin(
                record::opt_str(header),
                admin_token@,
                reply::INTERNAL_SERVER_ERROR,
                next_outcome(old(self)@),
            ),
            final(self)@ == tables::apply_all(old(self)@, r@.changes),
    {
        if let Err(e) = admin::require_admin(header, admin_token) {
            return reply::refuse(reply::UNAUTHORIZED, e.message(), reply::INTERNAL_SERVER_ERROR);
        }
        let ghost t = self@;
        let mut changes: Vec<Change> = Vec::new();
        self.ensure_current_question_selected(&mut changes);
        assert(tables::change_views(changes@) =~= selecting(t));
        let ghost s = self@;
        let current = match self.current() {
            Some(id) => id,
            None => {
                return Outcome {
                    status: reply::OK,
                    body: Ok(
                        NextQuestionResponse {
                            done: true,
                            message: "no questions available".to_string(),
                            next_question: None,
                        },
                    ),
                    changes,
                    write_failure_status: reply::INTERNAL_SERVER_ERROR,
                };
            },
        };
        let question = match self.find_question(current) {
            Some(q) => q.clone(),
            None => {
                assert(false);
                return reply::refuse(
                    reply::INTERNAL_SERVER_ERROR,
                    "question not found".to_string(),
                    reply::INTERNAL_SERVER_ERROR,
                );
            },
        };
        let next = self.next_question(&question);
        proof {
            order::lemma_next_exists(s.questions, question@);
            assert(tables::change_views(changes@).push(
                ChangeView::SelectQuestion(next),
            ).drop_last() =~= selecting(t));
        }
        let body = match next {
            Some(id) => {
                let q = match self.find_question(id) {
                    Some(q) => Some(q.clone()),
                    None => None,
                };
                NextQuestionResponse {
                    done: false,
                    message: "moved to next question".to_string(),
                    next_question: q,
                }
            },
            None => NextQuestionResponse {
                done: true,
                message: "test completed".to_string(),
                next_question: None,
            },
        };
        make(self, &mut changes, Change::SelectQuestion(next));
        Outcome {
            status: reply::OK,
            body: Ok(body),
            changes,
            write_failure_status: reply::INTERNAL_SERVER_ERROR,
        }
    }

    /// Goes back to the first question.
    pub fn reset_state(&mut self, header: Option<&str>, admin_token: &str) -> (r: Outcome<
        CurrentQuestionResponse,
    >)
        requires
            old(self).wf(),
        ensures
            final(self).wf(),
            r@ == for_admin(
                record::opt_str(header),
                admin_token@,
                reply::INTERNAL_SERVER_ERROR,
                reset_outcome(old(self)@),
            ),
            final(self)@ == tables::apply_all(old(self)@, r@.changes),
    {
        if let Err(e) = admin::require_admin(header, admin_token) {
            return reply::refuse(reply::UNAUTHORIZED, e.message(), reply::INTERNAL_SERVER_ERROR);
        }
        let ghost t = self@;
        let ghost clear = ChangeView::SelectQuestion(None);
        let mut changes: Vec<Change> = Vec::new();
        make(self, &mut changes, Change::SelectQuestion(None));
        assert(tables::change_views(changes@) =~= seq![clear]);
        let ghost s = self@;
        self.ensure_current_question_selected(&mut changes);
        proof {
            lemma_apply_one(t, clear);
            lemma_apply_all_concat(t, seq![clear], selecting(s));
        }
        let body = self.current_response();
        Outcome {
            status: reply::OK,
            body: Ok(body),
            changes,
            write_failure_status: reply::INTERNAL_SERVER_ERROR,
        }
    }
}

} // verus!
