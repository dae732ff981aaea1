//! The record data model: the task record, its mathematical view, the
//! payload callers hand to create and update, and the recoverable errors.

use vstd::prelude::*;

verus! {

/// A task record as persisted in the store.
///
/// `owner` is the opaque principal string of the identity that created the
/// record; it never changes afterwards. `completed` transitions from false
/// to true at most once, and `completed_late` can become true only at that
/// same instant, when the completion time lies strictly after the deadline.
pub struct Record {
    pub owner: String,
    pub id: u64,
    pub title: String,
    pub body: String,
    pub completed: bool,
    pub created_at: u64,
    pub updated_at: Option<u64>,
    pub deadline: Option<u64>,
    pub completed_late: bool,
}

/// The mathematical view of a record: strings become character sequences,
/// everything else is carried as is.
#[verifier::ext_equal]
pub struct RecordView {
    pub owner: Seq<char>,
    pub id: u64,
    pub title: Seq<char>,
    pub body: Seq<char>,
    pub completed: bool,
    pub created_at: u64,
    pub updated_at: Option<u64>,
    pub deadline: Option<u64>,
    pub completed_late: bool,
}

impl View for Record {
    type V = RecordView;

    open spec fn view(&self) -> RecordView {
        RecordView {
            owner: self.owner@,
            id: self.id,
            title: self.title@,
            body: self.body@,
            completed: self.completed,
            created_at: self.created_at,
            updated_at: self.updated_at,
            deadline: self.deadline,
            completed_late: self.completed_late,
        }
    }
}

impl Record {
    /// An owned copy with the same view.
    pub fn duplicate(&self) -> (r: Record)
        ensures
            r@ == self@,
    {
        Record {
            owner: self.owner.clone(),
            id: self.id,
            title: self.title.clone(),
            body: self.body.clone(),
            completed: self.completed,
            created_at: self.created_at,
            updated_at: self.updated_at,
            deadline: self.deadline,
            completed_late: self.completed_late,
        }
    }
}

/// What a caller supplies to create or update a record. The deadline is
/// only consulted at creation.
pub struct Payload {
    pub title: String,
    pub body: String,
    pub deadline: Option<u64>,
}

/// The recoverable failures of the record service.
///
/// `NotFound` carries the id that was looked up, or no id for the whole-table
/// reads that found nothing to return. `NotAuthorized` carries the attempted
/// id and the identity that was refused. `PayloadTooLarge` reports a title or
/// body whose record would not fit the bounded persisted encoding.
#[allow(inconsistent_fields)]
pub enum Error {
    NotFound { id: Option<u64> },
    NotAuthorized { id: u64, caller: String },
    PayloadTooLarge,
}

} // verus!
