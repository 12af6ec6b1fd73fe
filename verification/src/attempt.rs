//! Attempts: submitting an answer, and marking it.

use vstd::prelude::*;
use crate::admin;
use crate::course;
use crate::matching::{Evaluation, Findings, MatchPlan};
use crate::matching;
use crate::record::{Attempt, AttemptView, QuestionView};
use crate::record;
use crate::reply::{Outcome, OutcomeView};
use crate::reply;
use crate::store::Store;
use crate::store;
use crate::tables::{Change, ChangeView, Tables};
use crate::tables;
use crate::text;

verus! {

/// How an attempt is marked, and what of the solution is shown.
#[derive(Debug)]
pub struct ReviewAttemptBody {
    pub is_correct: bool,
    pub feedback: Option<String>,
    pub share_solution: Option<bool>,
    pub solution_text_to_show: Option<String>,
    pub solution_image_to_show: Option<String>,
}

/// A [`ReviewAttemptBody`], by its values.
pub struct ReviewView {
    pub is_correct: bool,
    pub feedback: Option<Seq<char>>,
    pub share_solution: Option<bool>,
    pub solution_text_to_show: Option<Seq<char>>,
    pub solution_image_to_show: Option<Seq<char>>,
}

impl View for ReviewAttemptBody {
    type V = ReviewView;

    open spec fn view(&self) -> ReviewView {
        ReviewView {
            is_correct: self.is_correct,
            feedback: record::opt_text(self.feedback),
            share_solution: self.share_solution,
            solution_text_to_show: record::opt_text(self.solution_text_to_show),
            solution_image_to_show: record::opt_text(self.solution_image_to_show),
        }
    }
}

/// A marked attempt, with what is shown of the solution.
#[derive(Debug)]
pub struct ReviewAttemptResponse {
    pub attempt: Attempt,
    pub solution_text: Option<String>,
    pub solution_image_path: Option<String>,
}

/// A [`ReviewAttemptResponse`], by its values.
pub struct ReviewedView {
    pub attempt: AttemptView,
    pub solution_text: Option<Seq<char>>,
    pub solution_image_path: Option<Seq<char>>,
}

impl View for ReviewAttemptResponse {
    type V = ReviewedView;

    open spec fn view(&self) -> ReviewedView {
        ReviewedView {
            attempt: self.attempt@,
            solution_text: record::opt_text(self.solution_text),
            solution_image_path: record::opt_text(self.solution_image_path),
        }
    }
}

/// The attempt that a submitted answer with this hint makes.
pub open spec fn submitted(
    t: Tables,
    id: i64,
    answer: Seq<char>,
    auto_match: Option<bool>,
    now: Seq<char>,
) -> AttemptView {
    AttemptView {
        id: (t.attempt_seq + 1) as i64,
        question_id: id,
        submitted_answer: text::trimmed(answer),
        auto_match,
        is_correct: None,
        feedback: None,
        submitted_at: now,
        reviewed_at: None,
    }
}

/// What is wrong with a submitted answer in itself, if anything: it is blank.
pub open spec fn fault_of_answer(answer: Seq<char>) -> Option<Seq<char>> {
    if text::trimmed(answer).len() == 0 {
        Some("submitted_answer is required"@)
    } else {
        None
    }
}

/// What a submitted answer with this hint comes to: a refusal if it is blank, if
/// there is no such question or if the ids are used up; else an attempt, not yet marked.
pub open spec fn record_outcome(
    t: Tables,
    id: i64,
    answer: Seq<char>,
    auto_match: Option<bool>,
    now: Seq<char>,
) -> OutcomeView<AttemptView> {
    if fault_of_answer(answer) is Some {
        reply::refusal(reply::BAD_REQUEST, fault_of_answer(answer)->0, reply::BAD_REQUEST)
    } else if !t.questions.contains_key(id) {
        reply::refusal(reply::NOT_FOUND, "question not found"@, reply::BAD_REQUEST)
    } else if t.attempt_seq == i64::MAX {
        reply::refusal(reply::BAD_REQUEST, "failed to insert attempt"@, reply::BAD_REQUEST)
    } else {
        let a = submitted(t, id, answer, auto_match, now);
        OutcomeView {
            status: reply::CREATED,
            body: Ok(a),
            changes: seq![ChangeView::InsertAttempt(a)],
            write_failure_status: reply::BAD_REQUEST,
        }
    }
}

/// What a submitted answer comes to, with the hint that the comparisons give.
pub open spec fn submit_outcome(
    t: Tables,
    id: i64,
    answer: Seq<char>,
    numbers: Option<bool>,
    rounds: Seq<Evaluation>,
    now: Seq<char>,
) -> OutcomeView<AttemptView> {
    let expected = t.questions[id].expected_answer;
    let hint = matching::answer_hint(expected, text::trimmed(answer), numbers, rounds);
    record_outcome(t, id, answer, hint, now)
}

/// What is shown of a part of the solution: the text to show instead, unless
/// it is blank or missing, else the question's own.
pub open spec fn shown(instead: Option<Seq<char>>, own: Option<Seq<char>>) -> Option<Seq<char>> {
    match instead {
        Some(s) => if text::trimmed(s).len() > 0 {
            instead
        } else {
            own
        },
        None => own,
    }
}

/// Whether the solution is shown: only for a wrong answer, and only if asked for.
pub open spec fn shares_solution(b: ReviewView) -> bool {
    !b.is_correct && b.share_solution == Some(true)
}

/// The reply to the marking of an attempt.
pub open spec fn review_body(a: AttemptView, q: QuestionView, b: ReviewView) -> ReviewedView {
    ReviewedView {
        attempt: a,
        solution_text: if shares_solution(b) {
            shown(b.solution_text_to_show, q.solution_text)
        } else {
            None
        },
        solution_image_path: if shares_solution(b) {
            shown(b.solution_image_to_show, q.solution_image_path)
        } else {
            None
        },
    }
}

/// What a request of the admin to mark an attempt comes to.
pub open spec fn review_outcome(
    t: Tables,
    id: i64,
    b: ReviewView,
    now: Seq<char>,
) -> OutcomeView<ReviewedView> {
    if !t.attempts.contains_key(id) {
        reply::refusal(reply::NOT_FOUND, "attempt not found"@, reply::BAD_REQUEST)
    } else {
        let a = t.attempts[id];
        OutcomeView {
            status: reply::OK,
            body: Ok(
                review_body(
                    tables::marked(a, b.is_correct, b.feedback, now),
                    t.questions[a.question_id],
                    b,
                ),
            ),
            changes: seq![
                ChangeView::MarkAttempt {
                    id,
                    is_correct: b.is_correct,
                    feedback: b.feedback,
                    reviewed_at: now,
                },
            ],
            write_failure_status: reply::BAD_REQUEST,
        }
    }
}

/// What is shown of a part of the solution.
fn to_show(instead: &Option<String>, own: &Option<String>) -> (r: Option<String>)
    ensures
        record::opt_text(r) == shown(record::opt_text(*instead), record::opt_text(*own)),
{
    if let Some(s) = instead {
        let t = text::trim(s.as_str());
        if !t.as_str().is_empty() {
            return Some(s.clone());
        }
    }
    record::copy_text(own)
}

/// What is wrong with a submitted answer in itself, if anything.
pub fn answer_fault(submitted_answer: &str) -> (r: Option<String>)
    ensures
        record::opt_text(r) == fault_of_answer(submitted_answer@),
{
    if text::trim(submitted_answer).as_str().is_empty() {
        Some("submitted_answer is required".to_string())
    } else {
        None
    }
}

impl Store {
    /// What there is to compare for the hint on a submitted answer, if the
    /// answer is not blank and the question is there.
    pub fn plan_attempt(&self, id: i64, submitted_answer: &str) -> (r: Option<MatchPlan>)
        requires
            self.wf(),
        ensures
            r is Some <==> text::trimmed(submitted_answer@).len() > 0
                && self@.questions.contains_key(id),
            r matches Some(plan) ==> matching::plan_for(
                plan,
                self@.questions[id].expected_answer,
                text::trimmed(submitted_answer@),
            ),
    {
        let answer = text::trim(submitted_answer);
        if answer.as_str().is_empty() {
            return None;
        }
        match self.find_question(id) {
            Some(q) => Some(matching::plan_match(q.expected_answer.as_str(), answer.as_str())),
            None => None,
        }
    }

    /// Takes a submitted answer with its hint.
    pub fn record_attempt(
        &mut self,
        id: i64,
        submitted_answer: &str,
        auto_match: Option<bool>,
        now: &str,
    ) -> (r: Outcome<Attempt>)
        requires
            old(self).wf(),
        ensures
            final(self).wf(),
            r@ == record_outcome(old(self)@, id, submitted_answer@, auto_match, now@),
            final(self)@ == tables::apply_all(old(self)@, r@.changes),
    {
        if let Some(fault) = answer_fault(submitted_answer) {
            return reply::refuse(reply::BAD_REQUEST, fault, reply::BAD_REQUEST);
        }
        let answer = text::trim(submitted_answer);
        if self.find_question(id).is_none() {
            return reply::refuse(
                reply::NOT_FOUND,
                "question not found".to_string(),
                reply::BAD_REQUEST,
            );
        }
        if self.attempt_seq() == i64::MAX {
            return reply::refuse(
                reply::BAD_REQUEST,
                "failed to insert attempt".to_string(),
                reply::BAD_REQUEST,
            );
        }
        let attempt = Attempt {
            id: self.attempt_seq() + 1,
            question_id: id,
            submitted_answer: answer,
            auto_match,
            is_correct: None,
            feedback: None,
            submitted_at: now.to_string(),
            reviewed_at: None,
        };
        let body = attempt.clone();
        let mut changes: Vec<Change> = Vec::new();
        course::make(self, &mut changes, Change::InsertAttempt(attempt));
        proof {
            assert(tables::change_views(changes@) =~= seq![ChangeView::InsertAttempt(body@)]);
            course::lemma_apply_one(old(self)@, ChangeView::InsertAttempt(body@));
        }
        Outcome {
            status: reply::CREATED,
            body: Ok(body),
            changes,
            write_failure_status: reply::BAD_REQUEST,
        }
    }

    /// Takes a submitted answer, with what the planned comparisons gave.
    pub fn submit_attempt(
        &mut self,
        id: i64,
        submitted_answer: &str,
        findings: &Findings,
        now: &str,
    ) -> (r: Outcome<Attempt>)
        requires
            old(self).wf(),
        ensures
            final(self).wf(),
            r@ == submit_outcome(
                old(self)@,
                id,
                submitted_answer@,
                findings.numbers,
                findings.rounds@,
                now@,
            ),
            final(self)@ == tables::apply_all(old(self)@, r@.changes),
    {
        let answer = text::trim(submitted_answer);
        let auto_match = match self.find_question(id) {
            Some(q) => matching::auto_match_answer(
                q.expected_answer.as_str(),
                answer.as_str(),
                findings,
            ),
            None => None,
        };
        self.record_attempt(id, submitted_answer, auto_match, now)
    }

    /// The attempts at a question, the latest first.
    pub fn list_attempts_for_question(&self, id: i64) -> (r: Vec<Attempt>)
        requires
            self.wf(),
        ensures
            tables::attempt_listing(self@.attempts, id, store::attempt_views(r@)),
    {
        self.load_attempts(id)
    }

    /// Marks an attempt, and shows the solution to a wrong one if asked to.
    pub fn review_attempt(
        &mut self,
        id: i64,
        header: Option<&str>,
        admin_token: &str,
        body: &ReviewAttemptBody,
        now: &str,
    ) -> (r: Outcome<ReviewAttemptResponse>)
        requires
            old(self).wf(),
        ensures
            final(self).wf(),
            r@ == course::for_admin(
                record::opt_str(header),
                admin_token@,
                reply::BAD_REQUEST,
                review_outcome(old(self)@, id, body@, now@),
            ),
            final(self)@ == tables::apply_all(old(self)@, r@.changes),
    {
        if let Err(e) = admin::require_admin(header, admin_token) {
            return reply::refuse(reply::UNAUTHORIZED, e.message(), reply::BAD_REQUEST);
        }
        let mut attempt = match self.load_attempt_by_id(id) {
            Ok(a) => a,
            Err(e) => {
                return reply::refuse(reply::NOT_FOUND, e, reply::BAD_REQUEST);
            },
        };
        let share = match body.share_solution {
            Some(b) => b,
            None => false,
        };
        let mut solution_text: Option<String> = None;
        let mut solution_image_path: Option<String> = None;
        if !body.is_correct && share {
            match self.load_question_by_id(attempt.question_id) {
                Ok(q) => {
                    solution_text = to_show(&body.solution_text_to_show, &q.solution_text);
                    solution_image_path =
                    to_show(&body.solution_image_to_show, &q.solution_image_path);
                },
                Err(_) => {
                    assert(false);
                },
            }
        }
        attempt.is_correct = Some(body.is_correct);
        attempt.feedback = record::copy_text(&body.feedback);
        attempt.reviewed_at = Some(now.to_string());
        let mut changes: Vec<Change> = Vec::new();
        let mark = Change::MarkAttempt {
            id,
            is_correct: body.is_correct,
            feedback: record::copy_text(&body.feedback),
            reviewed_at: now.to_string(),
        };
        let ghost change = mark@;
        course::make(self, &mut changes, mark);
        proof {
            assert(tables::change_views(changes@) =~= seq![change]);
            course::lemma_apply_one(old(self)@, change);
        }
        Outcome {
            status: reply::OK,
            body: Ok(ReviewAttemptResponse { attempt, solution_text, solution_image_path }),
            changes,
            write_failure_status: reply::BAD_REQUEST,
        }
    }
}

} // verus!
