//! The values that the event service stores and orders.

use vstd::prelude::*;

verus! {

/// A category is known by its name.
pub type Category = String;

/// An event, as stored and as handed out.
#[derive(Debug, PartialEq, Eq, Clone)]
pub struct Event {
    pub id: u64,
    pub title: String,
    pub cover: String,
    pub description: String,
    pub organizer: u64,
    pub date_created: i64,
    pub date_planning: i64,
    pub category: Category,
}

/// The field that a list of events is ordered by.
#[derive(Debug, PartialEq, Eq, Clone, Copy)]
pub enum EventSortKey {
    Title,
    Organizer,
    Created,
    Planning,
    Default,
}

} // verus!
