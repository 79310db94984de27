//! The `Event` record and its mathematical model.

use vstd::prelude::*;

verus! {

/// Lifecycle status of an event record.
#[derive(Clone, Copy, Debug, PartialEq, Eq, Structural)]
pub enum Status {
    Active,
    Completed,
}

/// One registry record. `event_id` is assigned at creation and never changes
/// afterwards; all other fields may be replaced by an update.
#[derive(Debug, PartialEq, Eq)]
pub struct Event {
    pub event_id: u32,
    pub name: String,
    pub description: String,
    pub start_date: u64,
    pub end_date: u64,
    pub status: Status,
}

/// The mathematical value of an `Event`: the same fields, with the strings
/// taken as character sequences.
#[verifier::ext_equal]
pub ghost struct EventModel {
    pub event_id: u32,
    pub name: Seq<char>,
    pub description: Seq<char>,
    pub start_date: u64,
    pub end_date: u64,
    pub status: Status,
}

impl View for Event {
    type V = EventModel;

    open spec fn view(&self) -> EventModel {
        EventModel {
            event_id: self.event_id,
            name: self.name@,
            description: self.description@,
            start_date: self.start_date,
            end_date: self.end_date,
            status: self.status,
        }
    }
}

impl Clone for Event {
    fn clone(&self) -> (res: Self)
        ensures
            res == *self,
    {
        Event {
            event_id: self.event_id,
            name: self.name.clone(),
            description: self.description.clone(),
            start_date: self.start_date,
            end_date: self.end_date,
            status: self.status,
        }
    }
}

} // verus!
