//! The messages of the event service, the statuses that answer them, and
//! the topics they arrive on.

use crate::events::types::{Category, Event, EventSortKey};
use vstd::prelude::*;

verus! {

/// The answer to a message: a status code and a text.
#[derive(Debug)]
pub struct Status {
    pub code: u16,
    pub message: String,
}

impl Status {
    /// Success: code 200, text "Ok".
    pub fn ok() -> (r: Status)
        ensures
            r.code == 200,
            r.message@ == "Ok"@,
    {
        Status { code: 200, message: String::from_str("Ok") }
    }

    /// A status with the given fields.
    pub fn new(code: u16, message: String) -> (r: Status)
        ensures
            r.code == code,
            r.message == message,
    {
        Status { code, message }
    }
}

/// The status that answers a message once its action has run: the action's
/// status on success, otherwise code 404 with the error's text.
pub fn outcome_status(outcome: Result<Status, String>) -> (r: Status)
    ensures
        outcome matches Ok(s) ==> r == s,
        outcome matches Err(text) ==> r.code == 404 && r.message == text,
{
    match outcome {
        Ok(s) => s,
        Err(text) => Status::new(404, text),
    }
}

/// A request to create an event; without an id, a generated one is used.
pub struct CreateEventMessage {
    pub id: Option<u64>,
    pub title: String,
    pub cover: String,
    pub description: String,
    pub organizer: u64,
    pub date_planning: i64,
    pub category: Category,
}

impl CreateEventMessage {
    /// The event that the request creates: `generated_id` is its id when the
    /// request gives none, and `now` its creation date.
    pub fn event(&self, generated_id: u64, now: i64) -> (r: Event)
        ensures
            r.id == (match self.id {
                Some(id) => id,
                None => generated_id,
            }),
            r.title == self.title,
            r.cover == self.cover,
            r.description == self.description,
            r.organizer == self.organizer,
            r.date_created == now,
            r.date_planning == self.date_planning,
            r.category == self.category,
    {
        let id = match self.id {
            Some(id) => id,
            None => generated_id,
        };
        Event {
            id,
            title: self.title.clone(),
            cover: self.cover.clone(),
            description: self.description.clone(),
            organizer: self.organizer,
            date_created: now,
            date_planning: self.date_planning,
            category: self.category.clone(),
        }
    }
}

/// A request to delete event `id`.
pub struct DeleteEventMessage {
    pub id: u64,
}

/// A request to replace the stored event `id`.
pub struct UpdateEventMessage {
    pub id: u64,
    pub title: String,
    pub cover: String,
    pub description: String,
    pub organizer: u64,
    pub date_created: i64,
    pub date_planning: i64,
    pub category: Category,
}

impl UpdateEventMessage {
    /// The event that replaces the stored one: the request's fields.
    pub fn event(&self) -> (r: Event)
        ensures
            r.id == self.id,
            r.title == self.title,
            r.cover == self.cover,
            r.description == self.description,
            r.organizer == self.organizer,
            r.date_created == self.date_created,
            r.date_planning == self.date_planning,
            r.category == self.category,
    {
        Event {
            id: self.id,
            title: self.title.clone(),
            cover: self.cover.clone(),
            description: self.description.clone(),
            organizer: self.organizer,
            date_created: self.date_created,
            date_planning: self.date_planning,
            category: self.category.clone(),
        }
    }
}

/// A request for event `id`.
pub struct GetEventMessage {
    pub id: u64,
}

/// A request for a list of events, filtered by organizer and category and
/// ordered by `sort_key`.
pub struct GetEventsMessage {
    pub sort_key: Option<EventSortKey>,
    pub organizer: Option<u64>,
    pub category: Option<Category>,
}

/// A request to create category `name`.
pub struct CreateCategoryMessage {
    pub name: Category,
}

/// A request to delete category `name`.
pub struct DeleteCategoryMessage {
    pub name: Category,
}

/// A request for the list of categories.
pub struct GetCategoriesMessage {}

/// A request to merge category `merge_from` into `merge_into`.
pub struct MergeCategoriesMessage {
    pub merge_into: Category,
    pub merge_from: Category,
}

/// The topics the event service listens on.
#[derive(Debug, PartialEq, Eq, Clone, Copy)]
pub enum EventTopic {
    CreateEvent,
    DeleteEvent,
    UpdateEvent,
    GetEvent,
    GetEvents,
    GetCategories,
    CreateCategory,
    DeleteCategory,
    MergeCategories,
}

/// The topic that a subscription name denotes.
pub open spec fn event_topic_named(name: Seq<char>) -> Option<EventTopic> {
    if name == "event_create"@ {
        Some(EventTopic::CreateEvent)
    } else if name == "event_delete"@ {
        Some(EventTopic::DeleteEvent)
    } else if name == "event_update"@ {
        Some(EventTopic::UpdateEvent)
    } else if name == "event_get"@ {
        Some(EventTopic::GetEvent)
    } else if name == "events"@ {
        Some(EventTopic::GetEvents)
    } else if name == "categories"@ {
        Some(EventTopic::GetCategories)
    } else if name == "category_create"@ {
        Some(EventTopic::CreateCategory)
    } else if name == "category_delete"@ {
        Some(EventTopic::DeleteCategory)
    } else if name == "category_merge"@ {
        Some(EventTopic::MergeCategories)
    } else {
        None
    }
}

/// Each subscription name of the event service denotes its own action:
/// `event_create` creates, `event_delete` deletes, `event_update` updates
/// and `event_get` reads one event; `events` lists events; `categories`
/// lists, `category_create` creates, `category_delete` deletes and
/// `category_merge` merges categories. Any other name denotes none.
pub proof fn law_event_topic_names(other: Seq<char>)
    requires
        other != "event_create"@,
        other != "event_delete"@,
        other != "event_update"@,
        other != "event_get"@,
        other != "events"@,
        other != "categories"@,
        other != "category_create"@,
        other != "category_delete"@,
        other != "category_merge"@,
    ensures
        event_topic_named("event_create"@) == Some(EventTopic::CreateEvent),
        event_topic_named("event_delete"@) == Some(EventTopic::DeleteEvent),
        event_topic_named("event_update"@) == Some(EventTopic::UpdateEvent),
        event_topic_named("event_get"@) == Some(EventTopic::GetEvent),
        event_topic_named("events"@) == Some(EventTopic::GetEvents),
        event_topic_named("categories"@) == Some(EventTopic::GetCategories),
        event_topic_named("category_create"@) == Some(EventTopic::CreateCategory),
        event_topic_named("category_delete"@) == Some(EventTopic::DeleteCategory),
        event_topic_named("category_merge"@) == Some(EventTopic::MergeCategories),
        event_topic_named(other) is None,
{
    reveal_strlit("event_create");
    reveal_strlit("event_delete");
    reveal_strlit("event_update");
    reveal_strlit("event_get");
    reveal_strlit("events");
    reveal_strlit("categories");
    reveal_strlit("category_create");
    reveal_strlit("category_delete");
    reveal_strlit("category_merge");
    assert("event_create"@.len() == 12 && "event_delete"@.len() == 12 && "event_update"@.len() == 12);
    assert("event_get"@.len() == 9 && "events"@.len() == 6 && "categories"@.len() == 10);
    assert("category_create"@.len() == 15 && "category_delete"@.len() == 15);
    assert("category_merge"@.len() == 14);
    assert("event_delete"@[6] != "event_create"@[6]);
    assert("event_update"@[6] != "event_create"@[6]);
    assert("event_update"@[6] != "event_delete"@[6]);
    assert("category_delete"@[9] != "category_create"@[9]);
}

/// The topic that subscription `name` carries; `None` for an unknown name.
pub fn event_topic(name: &String) -> (r: Option<EventTopic>)
    ensures
        r == event_topic_named(name@),
{
    if *name == String::from_str("event_create") {
        Some(EventTopic::CreateEvent)
    } else if *name == String::from_str("event_delete") {
        Some(EventTopic::DeleteEvent)
    } else if *name == String::from_str("event_update") {
        Some(EventTopic::UpdateEvent)
    } else if *name == String::from_str("event_get") {
        Some(EventTopic::GetEvent)
    } else if *name == String::from_str("events") {
        Some(EventTopic::GetEvents)
    } else if *name == String::from_str("categories") {
        Some(EventTopic::GetCategories)
    } else if *name == String::from_str("category_create") {
        Some(EventTopic::CreateCategory)
    } else if *name == String::from_str("category_delete") {
        Some(EventTopic::DeleteCategory)
    } else if *name == String::from_str("category_merge") {
        Some(EventTopic::MergeCategories)
    } else {
        None
    }
}

/// The subscription name of a topic.
pub fn event_topic_name(topic: EventTopic) -> (r: String)
    ensures
        event_topic_named(r@) == Some(topic),
{
    proof {
        reveal_strlit("event_create");
        reveal_strlit("event_delete");
        reveal_strlit("event_update");
        reveal_strlit("event_get");
        reveal_strlit("events");
        reveal_strlit("categories");
        reveal_strlit("category_create");
        reveal_strlit("category_delete");
        reveal_strlit("category_merge");
        assert("event_create"@.len() == 12 && "event_delete"@.len() == 12 && "event_update"@.len()
            == 12);
        assert("event_get"@.len() == 9 && "events"@.len() == 6 && "categories"@.len() == 10);
        assert("category_create"@.len() == 15 && "category_delete"@.len() == 15);
        assert("category_merge"@.len() == 14);
        assert("event_delete"@[6] != "event_create"@[6]);
        assert("event_update"@[6] != "event_create"@[6]);
        assert("event_update"@[6] != "event_delete"@[6]);
        assert("category_delete"@[9] != "category_create"@[9]);
    }
    match topic {
        EventTopic::CreateEvent => {
            let r = String::from_str("event_create");
            assert(event_topic_named(r@) == Some(EventTopic::CreateEvent));
            r
        },
        EventTopic::DeleteEvent => {
            let r = String::from_str("event_delete");
            assert(event_topic_named(r@) == Some(EventTopic::DeleteEvent));
            r
        },
        EventTopic::UpdateEvent => {
            let r = String::from_str("event_update");
            assert(event_topic_named(r@) == Some(EventTopic::UpdateEvent));
            r
        },
        EventTopic::GetEvent => {
            let r = String::from_str("event_get");
            assert(event_topic_named(r@) == Some(EventTopic::GetEvent));
            r
        },
        EventTopic::GetEvents => {
            let r = String::from_str("events");
            assert(event_topic_named(r@) == Some(EventTopic::GetEvents));
            r
        },
        EventTopic::GetCategories => {
            let r = String::from_str("categories");
            assert(event_topic_named(r@) == Some(EventTopic::GetCategories));
            r
        },
        EventTopic::CreateCategory => {
            let r = String::from_str("category_create");
            assert(event_topic_named(r@) == Some(EventTopic::CreateCategory));
            r
        },
        EventTopic::DeleteCategory => {
            let r = String::from_str("category_delete");
            assert(event_topic_named(r@) == Some(EventTopic::DeleteCategory));
            r
        },
        EventTopic::MergeCategories => {
            let r = String::from_str("category_merge");
            assert(event_topic_named(r@) == Some(EventTopic::MergeCategories));
            r
        },
    }
}

/// The subscription names of the event service, one per topic, in the
/// order the service subscribes to them.
pub fn event_topic_names() -> (r: Vec<String>)
    ensures
        r@.len() == 9,
        forall|i: int| 0 <= i < 9 ==> (#[trigger] event_topic_named(r@[i]@)) is Some,
        forall|i: int, j: int|
            0 <= i < j < 9 ==> event_topic_named(r@[i]@) != event_topic_named(r@[j]@),
{
    let mut r: Vec<String> = Vec::new();
    r.push(event_topic_name(EventTopic::CreateEvent));
    r.push(event_topic_name(EventTopic::DeleteEvent));
    r.push(event_topic_name(EventTopic::UpdateEvent));
    r.push(event_topic_name(EventTopic::GetEvent));
    r.push(event_topic_name(EventTopic::GetEvents));
    r.push(event_topic_name(EventTopic::GetCategories));
    r.push(event_topic_name(EventTopic::CreateCategory));
    r.push(event_topic_name(EventTopic::DeleteCategory));
    r.push(event_topic_name(EventTopic::MergeCategories));
    r
}

/// The topic the statuses are published on.
pub fn results_topic_name() -> (r: String)
    ensures
        r@ == "results"@,
{
    String::from_str("results")
}

/// What the service does with a pulled batch of one subscription.
#[derive(Debug, PartialEq, Eq, Clone, Copy)]
pub enum BatchStep {
    /// No message of the batch decoded: nothing to handle.
    Skip,
    /// The subscription's name is no topic of the service: the pull fails.
    UnknownTopic,
    /// The decoded messages are handled as messages of the topic.
    Handle(EventTopic),
}

/// The step for a batch of subscription `name` of which `decoded_count`
/// messages decoded.
pub fn batch_step(name: &String, decoded_count: usize) -> (r: BatchStep)
    ensures
        decoded_count == 0 ==> r == BatchStep::Skip,
        decoded_count > 0 ==> r == match event_topic_named(name@) {
            Some(t) => BatchStep::Handle(t),
            None => BatchStep::UnknownTopic,
        },
{
    if decoded_count == 0 {
        return BatchStep::Skip;
    }
    match event_topic(name) {
        Some(t) => BatchStep::Handle(t),
        None => BatchStep::UnknownTopic,
    }
}

} // verus!
