//! What the backend keeps: questions, attempts and timed sessions.

use vstd::prelude::*;
use crate::table::Record;

verus! {

/// A text that may be missing, by its characters.
pub open spec fn opt_text(s: Option<String>) -> Option<Seq<char>> {
    match s {
        Some(t) => Some(t@),
        None => None,
    }
}

/// A borrowed text that may be missing, by its characters.
pub open spec fn opt_str(s: Option<&str>) -> Option<Seq<char>> {
    match s {
        Some(t) => Some(t@),
        None => None,
    }
}

/// A copy of a text that may be missing.
pub(crate) fn copy_text(s: &Option<String>) -> (r: Option<String>)
    ensures
        r == *s,
{
    match s {
        Some(t) => Some(t.clone()),
        None => None,
    }
}

/// A question of the test.
#[derive(Debug)]
pub struct Question {
    pub id: i64,
    pub question_text: Option<String>,
    pub question_image_path: Option<String>,
    pub expected_answer: String,
    pub solution_text: Option<String>,
    pub solution_image_path: Option<String>,
    pub time_limit_minutes: i64,
    pub position: i64,
    pub created_at: String,
}

/// A question, by its values.
pub struct QuestionView {
    pub id: i64,
    pub question_text: Option<Seq<char>>,
    pub question_image_path: Option<Seq<char>>,
    pub expected_answer: Seq<char>,
    pub solution_text: Option<Seq<char>>,
    pub solution_image_path: Option<Seq<char>>,
    pub time_limit_minutes: i64,
    pub position: i64,
    pub created_at: Seq<char>,
}

impl View for Question {
    type V = QuestionView;

    open spec fn view(&self) -> QuestionView {
        QuestionView {
            id: self.id,
            question_text: opt_text(self.question_text),
            question_image_path: opt_text(self.question_image_path),
            expected_answer: self.expected_answer@,
            solution_text: opt_text(self.solution_text),
            solution_image_path: opt_text(self.solution_image_path),
            time_limit_minutes: self.time_limit_minutes,
            position: self.position,
            created_at: self.created_at@,
        }
    }
}

impl Clone for Question {
    fn clone(&self) -> (r: Self)
        ensures
            r == *self,
    {
        Question {
            id: self.id,
            question_text: copy_text(&self.question_text),
            question_image_path: copy_text(&self.question_image_path),
            expected_answer: self.expected_answer.clone(),
            solution_text: copy_text(&self.solution_text),
            solution_image_path: copy_text(&self.solution_image_path),
            time_limit_minutes: self.time_limit_minutes,
            position: self.position,
            created_at: self.created_at.clone(),
        }
    }
}

impl Record for Question {
    open spec fn key_of(row: QuestionView) -> i64 {
        row.id
    }

    fn key(&self) -> (r: i64) {
        self.id
    }
}

/// An answer that was submitted to a question.
#[derive(Debug)]
pub struct Attempt {
    pub id: i64,
    pub question_id: i64,
    pub submitted_answer: String,
    pub auto_match: Option<bool>,
    pub is_correct: Option<bool>,
    pub feedback: Option<String>,
    pub submitted_at: String,
    pub reviewed_at: Option<String>,
}

/// An attempt, by its values.
pub struct AttemptView {
    pub id: i64,
    pub question_id: i64,
    pub submitted_answer: Seq<char>,
    pub auto_match: Option<bool>,
    pub is_correct: Option<bool>,
    pub feedback: Option<Seq<char>>,
    pub submitted_at: Seq<char>,
    pub reviewed_at: Option<Seq<char>>,
}

impl View for Attempt {
    type V = AttemptView;

    open spec fn view(&self) -> AttemptView {
        AttemptView {
            id: self.id,
            question_id: self.question_id,
            submitted_answer: self.submitted_answer@,
            auto_match: self.auto_match,
            is_correct: self.is_correct,
            feedback: opt_text(self.feedback),
            submitted_at: self.submitted_at@,
            reviewed_at: opt_text(self.reviewed_at),
        }
    }
}

impl Clone for Attempt {
    fn clone(&self) -> (r: Self)
        ensures
            r == *self,
    {
        Attempt {
            id: self.id,
            question_id: self.question_id,
            submitted_answer: self.submitted_answer.clone(),
            auto_match: self.auto_match,
            is_correct: self.is_correct,
            feedback: copy_text(&self.feedback),
            submitted_at: self.submitted_at.clone(),
            reviewed_at: copy_text(&self.reviewed_at),
        }
    }
}

impl Record for Attempt {
    open spec fn key_of(row: AttemptView) -> i64 {
        row.id
    }

    fn key(&self) -> (r: i64) {
        self.id
    }
}

/// The row of an attempt, with its flags as the numbers they are kept as.
#[derive(Debug)]
pub struct AttemptRow {
    pub id: i64,
    pub question_id: i64,
    pub submitted_answer: String,
    pub auto_match: Option<i64>,
    pub is_correct: Option<i64>,
    pub feedback: Option<String>,
    pub submitted_at: String,
    pub reviewed_at: Option<String>,
}

/// The number that a flag is kept as.
pub open spec fn flag_number(v: bool) -> i64 {
    if v {
        1
    } else {
        0
    }
}

/// The flag that is kept as a number: only 1 stands for `true`.
pub open spec fn flag_of(v: Option<i64>) -> Option<bool> {
    match v {
        Some(n) => Some(n == 1),
        None => None,
    }
}

/// The number that a flag is kept as.
pub fn bool_to_i64(v: bool) -> (r: i64)
    ensures
        r == flag_number(v),
{
    if v {
        1
    } else {
        0
    }
}

/// The flag, if any, as the number it is kept as.
pub fn flag_to_row(v: Option<bool>) -> (r: Option<i64>)
    ensures
        r == match v {
            Some(b) => Some(flag_number(b)),
            None => None,
        },
{
    match v {
        Some(b) => Some(bool_to_i64(b)),
        None => None,
    }
}

fn flag_from_row(v: Option<i64>) -> (r: Option<bool>)
    ensures
        r == flag_of(v),
{
    match v {
        Some(n) => Some(n == 1),
        None => None,
    }
}

/// The attempt that a row stands for.
pub fn map_attempt_row(row: AttemptRow) -> (r: Attempt)
    ensures
        r@ == (AttemptView {
            id: row.id,
            question_id: row.question_id,
            submitted_answer: row.submitted_answer@,
            auto_match: flag_of(row.auto_match),
            is_correct: flag_of(row.is_correct),
            feedback: opt_text(row.feedback),
            submitted_at: row.submitted_at@,
            reviewed_at: opt_text(row.reviewed_at),
        }),
{
    Attempt {
        id: row.id,
        question_id: row.question_id,
        submitted_answer: row.submitted_answer,
        auto_match: flag_from_row(row.auto_match),
        is_correct: flag_from_row(row.is_correct),
        feedback: row.feedback,
        submitted_at: row.submitted_at,
        reviewed_at: row.reviewed_at,
    }
}

/// The time in which a question is to be answered, in seconds since 1970.
#[derive(Clone, Copy, Debug, PartialEq, Eq, Structural)]
pub struct Session {
    pub question_id: i64,
    pub started_at_unix: i64,
    pub expires_at_unix: i64,
}

impl View for Session {
    type V = Session;

    open spec fn view(&self) -> Session {
        *self
    }
}

impl Record for Session {
    open spec fn key_of(row: Session) -> i64 {
        row.question_id
    }

    fn key(&self) -> (r: i64) {
        self.question_id
    }
}

} // verus!
