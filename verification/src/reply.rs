//! What a request comes to: the changes it makes and the reply to it.

use vstd::prelude::*;
use crate::tables::{Change, ChangeView};
use crate::tables;

verus! {

pub const OK: u16 = 200;

pub const CREATED: u16 = 201;

pub const BAD_REQUEST: u16 = 400;

pub const UNAUTHORIZED: u16 = 401;

pub const NOT_FOUND: u16 = 404;

pub const INTERNAL_SERVER_ERROR: u16 = 500;

/// What a request comes to.
#[derive(Debug)]
pub struct Outcome<T> {
    /// The status of the reply.
    pub status: u16,
    /// The body of the reply, or the error it names.
    pub body: Result<T, String>,
    /// The changes that the request makes, in their order.
    pub changes: Vec<Change>,
    /// The status of the reply if the changes cannot be written.
    pub write_failure_status: u16,
}

/// What a request comes to, by its values.
pub struct OutcomeView<V> {
    pub status: u16,
    pub body: Result<V, Seq<char>>,
    pub changes: Seq<ChangeView>,
    pub write_failure_status: u16,
}

impl<T: View> View for Outcome<T> {
    type V = OutcomeView<T::V>;

    open spec fn view(&self) -> OutcomeView<T::V> {
        OutcomeView {
            status: self.status,
            body: match self.body {
                Ok(b) => Ok(b@),
                Err(e) => Err(e@),
            },
            changes: tables::change_views(self.changes@),
            write_failure_status: self.write_failure_status,
        }
    }
}

/// A refusal: an error, and no change.
pub open spec fn refusal<V>(
    status: u16,
    error: Seq<char>,
    write_failure_status: u16,
) -> OutcomeView<V> {
    OutcomeView { status, body: Err(error), changes: Seq::empty(), write_failure_status }
}

/// A refusal: an error, and no change.
pub(crate) fn refuse<T: View>(status: u16, error: String, write_failure_status: u16) -> (r: Outcome<T>)
    ensures
        r@ == refusal::<T::V>(status, error@, write_failure_status),
{
    let changes: Vec<Change> = Vec::new();
    assert(tables::change_views(changes@) =~= Seq::empty());
    Outcome { status, body: Err(error), changes, write_failure_status }
}

/// The error that a reply names if this change cannot be written; where there
/// is none, it names the fault of the database.
pub open spec fn failure_words(c: ChangeView) -> Option<Seq<char>> {
    match c {
        ChangeView::InsertQuestion(_) => Some("failed to insert question"@),
        ChangeView::InsertAttempt(_) => Some("failed to insert attempt"@),
        ChangeView::MarkAttempt { .. } => Some("failed to update attempt"@),
        ChangeView::PutSession(_) => None,
        ChangeView::SelectQuestion(_) => None,
    }
}

/// The error that a reply names if this change cannot be written.
pub fn failure_message(c: &Change) -> (r: Option<String>)
    ensures
        crate::record::opt_text(r) == failure_words(c@),
{
    match c {
        Change::InsertQuestion(_) => Some("failed to insert question".to_string()),
        Change::InsertAttempt(_) => Some("failed to insert attempt".to_string()),
        Change::MarkAttempt { .. } => Some("failed to update attempt".to_string()),
        Change::PutSession(_) => None,
        Change::SelectQuestion(_) => None,
    }
}

} // verus!
