//! The contents of the backend as mathematical tables: what must hold of them,
//! the order of the questions, and what each change does.

use vstd::prelude::*;
use crate::record::{Attempt, AttemptView, Question, QuestionView, Session};
use crate::record;

verus! {

/// The contents of the backend.
#[verifier::ext_equal]
pub struct Tables {
    /// The questions by their ids.
    pub questions: Map<i64, QuestionView>,
    /// The attempts by their ids.
    pub attempts: Map<i64, AttemptView>,
    /// The sessions by the ids of their questions.
    pub sessions: Map<i64, Session>,
    /// The question that the test is at.
    pub current: Option<i64>,
    /// The largest id that a question was ever given.
    pub question_seq: i64,
    /// The largest id that an attempt was ever given.
    pub attempt_seq: i64,
}

/// Whether a question can be kept: a time limit of 2 to 10 minutes, a text or
/// an image, and a solution as text or image.
pub open spec fn valid_question(q: QuestionView) -> bool {
    &&& 2 <= q.time_limit_minutes <= 10
    &&& q.question_text is Some || q.question_image_path is Some
    &&& q.solution_text is Some || q.solution_image_path is Some
}

/// Whether no two questions have the same position.
pub open spec fn positions_differ(questions: Map<i64, QuestionView>) -> bool {
    forall|a: i64, b: i64|
        questions.contains_key(a) && questions.contains_key(b) && a != b ==> (
        #[trigger] questions[a]).position != (#[trigger] questions[b]).position
}

/// What must hold of the contents.
pub open spec fn sound(t: Tables) -> bool {
    &&& t.questions.dom().finite()
    &&& t.attempts.dom().finite()
    &&& t.sessions.dom().finite()
    &&& 0 <= t.question_seq
    &&& 0 <= t.attempt_seq
    &&& forall|id: i64| #[trigger]
        t.questions.contains_key(id) ==> {
            &&& t.questions[id].id == id
            &&& id <= t.question_seq
            &&& valid_question(t.questions[id])
        }
    &&& positions_differ(t.questions)
    &&& forall|id: i64| #[trigger]
        t.attempts.contains_key(id) ==> {
            &&& t.attempts[id].id == id
            &&& id <= t.attempt_seq
            &&& t.questions.contains_key(t.attempts[id].question_id)
        }
    &&& forall|id: i64| #[trigger]
        t.sessions.contains_key(id) ==> {
            &&& t.sessions[id].question_id == id
            &&& t.questions.contains_key(id)
        }
    &&& t.current is Some ==> t.questions.contains_key(t.current->0)
}

/// Whether `a` comes before `b` in the test: by position, then by id.
pub open spec fn before(a: QuestionView, b: QuestionView) -> bool {
    a.position < b.position || (a.position == b.position && a.id < b.id)
}

/// Whether the question `id` comes before all others.
pub open spec fn is_first(questions: Map<i64, QuestionView>, id: i64) -> bool {
    &&& questions.contains_key(id)
    &&& forall|k: i64| #[trigger]
        questions.contains_key(k) && k != id ==> before(questions[id], questions[k])
}

/// The first question of the test.
pub open spec fn first_question(questions: Map<i64, QuestionView>) -> Option<i64> {
    if exists|id: i64| is_first(questions, id) {
        Some(choose|id: i64| is_first(questions, id))
    } else {
        None
    }
}

/// Whether the question `id` comes after `q`, and before all others that do.
pub open spec fn is_next(questions: Map<i64, QuestionView>, q: QuestionView, id: i64) -> bool {
    &&& questions.contains_key(id)
    &&& before(q, questions[id])
    &&& forall|k: i64| #[trigger]
        questions.contains_key(k) && k != id && before(q, questions[k]) ==> before(
            questions[id],
            questions[k],
        )
}

/// The question that follows `q` in the test.
pub open spec fn next_question(questions: Map<i64, QuestionView>, q: QuestionView) -> Option<i64> {
    if exists|id: i64| is_next(questions, q, id) {
        Some(choose|id: i64| is_next(questions, q, id))
    } else {
        None
    }
}

/// Whether some question has the position `p` and none a larger one.
pub open spec fn is_last_position(questions: Map<i64, QuestionView>, p: i64) -> bool {
    &&& exists|k: i64| #[trigger] questions.contains_key(k) && questions[k].position == p
    &&& forall|k: i64| #[trigger] questions.contains_key(k) ==> questions[k].position <= p
}

/// The largest position of a question.
pub open spec fn last_position(questions: Map<i64, QuestionView>) -> Option<i64> {
    if exists|p: i64| is_last_position(questions, p) {
        Some(choose|p: i64| is_last_position(questions, p))
    } else {
        None
    }
}

/// The position behind all questions.
pub open spec fn append_position(questions: Map<i64, QuestionView>) -> int {
    match last_position(questions) {
        Some(p) => p + 1,
        None => 1,
    }
}

/// Whether `list` holds the questions, each once, in the order of the test.
pub open spec fn question_listing(
    questions: Map<i64, QuestionView>,
    list: Seq<QuestionView>,
) -> bool {
    &&& forall|i: int, j: int|
        0 <= i < j < list.len() ==> before(#[trigger] list[i], #[trigger] list[j])
    &&& forall|i: int|
        0 <= i < list.len() ==> questions.contains_key((#[trigger] list[i]).id)
            && questions[list[i].id] == list[i]
    &&& forall|k: i64| #[trigger]
        questions.contains_key(k) ==> exists|i: int| 0 <= i < list.len() && (#[trigger] list[i]).id == k
}

/// Whether `list` holds the attempts at a question, each once, the latest first.
pub open spec fn attempt_listing(
    attempts: Map<i64, AttemptView>,
    question_id: i64,
    list: Seq<AttemptView>,
) -> bool {
    &&& forall|i: int, j: int| 0 <= i < j < list.len() ==> (#[trigger] list[i]).id > (#[trigger] list[j]).id
    &&& forall|i: int|
        0 <= i < list.len() ==> attempts.contains_key((#[trigger] list[i]).id)
            && attempts[list[i].id] == list[i] && list[i].question_id == question_id
    &&& forall|k: i64| #[trigger]
        attempts.contains_key(k) && attempts[k].question_id == question_id ==> exists|i: int|
            0 <= i < list.len() && (#[trigger] list[i]).id == k
}

/// A change of the contents.
#[derive(Debug)]
pub enum Change {
    /// A question is added.
    InsertQuestion(Question),
    /// An attempt is added.
    InsertAttempt(Attempt),
    /// An attempt is marked.
    MarkAttempt { id: i64, is_correct: bool, feedback: Option<String>, reviewed_at: String },
    /// The session of a question is started, or started anew.
    PutSession(Session),
    /// The test goes to a question, or to none.
    SelectQuestion(Option<i64>),
}

/// A change, by its values.
pub enum ChangeView {
    InsertQuestion(QuestionView),
    InsertAttempt(AttemptView),
    MarkAttempt { id: i64, is_correct: bool, feedback: Option<Seq<char>>, reviewed_at: Seq<char> },
    PutSession(Session),
    SelectQuestion(Option<i64>),
}

impl View for Change {
    type V = ChangeView;

    open spec fn view(&self) -> ChangeView {
        match *self {
            Change::InsertQuestion(q) => ChangeView::InsertQuestion(q@),
            Change::InsertAttempt(a) => ChangeView::InsertAttempt(a@),
            Change::MarkAttempt { id, is_correct, feedback, reviewed_at } => ChangeView::MarkAttempt {
                id,
                is_correct,
                feedback: record::opt_text(feedback),
                reviewed_at: reviewed_at@,
            },
            Change::PutSession(s) => ChangeView::PutSession(s),
            Change::SelectQuestion(id) => ChangeView::SelectQuestion(id),
        }
    }
}

/// The views of a list of changes.
pub open spec fn change_views(changes: Seq<Change>) -> Seq<ChangeView> {
    changes.map_values(|c: Change| c@)
}

/// An attempt as it is once it has been marked.
pub open spec fn marked(
    a: AttemptView,
    is_correct: bool,
    feedback: Option<Seq<char>>,
    reviewed_at: Seq<char>,
) -> AttemptView {
    AttemptView { is_correct: Some(is_correct), feedback, reviewed_at: Some(reviewed_at), ..a }
}

/// The contents after a change.
pub open spec fn apply(t: Tables, c: ChangeView) -> Tables {
    match c {
        ChangeView::InsertQuestion(q) => Tables {
            questions: t.questions.insert(q.id, q),
            question_seq: q.id,
            ..t
        },
        ChangeView::InsertAttempt(a) => Tables {
            attempts: t.attempts.insert(a.id, a),
            attempt_seq: a.id,
            ..t
        },
        ChangeView::MarkAttempt { id, is_correct, feedback, reviewed_at } => if t.attempts.contains_key(
            id,
        ) {
            Tables {
                attempts: t.attempts.insert(
                    id,
                    marked(t.attempts[id], is_correct, feedback, reviewed_at),
                ),
                ..t
            }
        } else {
            t
        },
        ChangeView::PutSession(s) => Tables { sessions: t.sessions.insert(s.question_id, s), ..t },
        ChangeView::SelectQuestion(id) => Tables { current: id, ..t },
    }
}

/// The contents after a list of changes, made from the first to the last.
pub open spec fn apply_all(t: Tables, changes: Seq<ChangeView>) -> Tables
    decreases changes.len(),
{
    if changes.len() == 0 {
        t
    } else {
        apply(apply_all(t, changes.drop_last()), changes.last())
    }
}

/// Whether a change can be made to sound contents: it adds a question or an
/// attempt under the next larger id, a question at a free position, and it
/// speaks of questions that are there.
pub open spec fn admissible(t: Tables, c: ChangeView) -> bool {
    match c {
        ChangeView::InsertQuestion(q) => {
            &&& q.id == t.question_seq + 1
            &&& valid_question(q)
            &&& forall|k: i64| #[trigger]
                t.questions.contains_key(k) ==> t.questions[k].position != q.position
        },
        ChangeView::InsertAttempt(a) => a.id == t.attempt_seq + 1 && t.questions.contains_key(
            a.question_id,
        ),
        ChangeView::MarkAttempt { .. } => true,
        ChangeView::PutSession(s) => t.questions.contains_key(s.question_id),
        ChangeView::SelectQuestion(id) => id is Some ==> t.questions.contains_key(id->0),
    }
}

/// Sound contents stay sound under every admissible change.
pub proof fn lemma_change_keeps_sound(t: Tables, c: ChangeView)
    requires
        sound(t),
        admissible(t, c),
    ensures
        sound(apply(t, c)),
{
    let after = apply(t, c);
    match c {
        ChangeView::InsertQuestion(q) => {
            assert forall|a: i64, b: i64|
                after.questions.contains_key(a) && after.questions.contains_key(b) && a
                    != b implies (#[trigger] after.questions[a]).position != (
            #[trigger] after.questions[b]).position by {
                if a != q.id {
                    assert(t.questions.contains_key(a));
                }
                if b != q.id {
                    assert(t.questions.contains_key(b));
                }
            }
        },
        _ => {},
    }
}

} // verus!
