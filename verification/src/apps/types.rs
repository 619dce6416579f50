//! The values that the application service stores and reports.

use vstd::prelude::*;

verus! {

/// Where an application stands.
#[derive(Debug, PartialEq, Eq, Clone, Copy)]
pub enum ApplicationStatus {
    Created,
    Registered,
    Approved,
    Rejected,
    Postponed,
}

/// An application of a user to an event.
#[derive(Debug, PartialEq, Eq, Clone)]
pub struct Application {
    pub id: u64,
    pub user_id: u64,
    pub event_id: u64,
    pub status: ApplicationStatus,
}

impl Application {
    /// Sets the status; the other fields stay.
    pub fn set_status(&mut self, status: ApplicationStatus)
        ensures
            *final(self) == (Application { status, ..*old(self) }),
    {
        self.status = status;
    }
}

/// A message as it arrives: its JSON text.
#[derive(Debug)]
pub struct Message {
    pub data: String,
}

impl Message {
    /// A message holding `data`.
    pub fn new(data: String) -> (r: Message)
        ensures
            r.data == data,
    {
        Message { data }
    }
}

/// The answer to a message: the id of the message, a status code and a
/// text.
#[derive(Debug)]
pub struct Status {
    pub id: u64,
    pub code: u16,
    pub message: String,
}

impl Status {
    /// Success for message `id`: code 200, text "Ok".
    pub fn ok(id: u64) -> (r: Status)
        ensures
            r.id == id,
            r.code == 200,
            r.message@ == "Ok"@,
    {
        Status { id, code: 200, message: String::from_str("Ok") }
    }

    /// A status with the given fields.
    pub fn new(id: u64, code: u16, message: String) -> (r: Status)
        ensures
            r.id == id,
            r.code == code,
            r.message == message,
    {
        Status { id, code, message }
    }
}

/// The status that answers message `message_id` once its action has run:
/// the action's status on success, otherwise code 404 with the error's text.
pub fn outcome_status(message_id: u64, outcome: Result<Status, String>) -> (r: Status)
    ensures
        outcome matches Ok(s) ==> r == s,
        outcome matches Err(text) ==> r.id == message_id && r.code == 404 && r.message == text,
{
    match outcome {
        Ok(s) => s,
        Err(text) => Status::new(message_id, 404, text),
    }
}

/// Whose applications a request lists.
#[derive(Debug, PartialEq, Eq, Clone, Copy)]
pub enum GetFor {
    User,
    Event,
}

/// A request to create an application; without an id, a generated one is
/// used.
pub struct CreateAppMessage {
    pub message_id: u64,
    pub id: Option<u64>,
    pub user_id: u64,
    pub event_id: u64,
}

impl CreateAppMessage {
    /// The application that the request creates, with status `Created`;
    /// `generated_id` is its id when the request gives none.
    pub fn application(&self, generated_id: u64) -> (r: Application)
        ensures
            r.id == (match self.id {
                Some(id) => id,
                None => generated_id,
            }),
            r.user_id == self.user_id,
            r.event_id == self.event_id,
            r.status == ApplicationStatus::Created,
    {
        let id = match self.id {
            Some(id) => id,
            None => generated_id,
        };
        Application { id, user_id: self.user_id, event_id: self.event_id, status: ApplicationStatus::Created }
    }
}

/// A request to set the status of application `id`.
pub struct UpdateStatusMessage {
    pub message_id: u64,
    pub id: u64,
    pub status: ApplicationStatus,
}

/// A request to list the applications of a user or of an event.
pub struct GetAppsMessage {
    pub message_id: u64,
    pub id: u64,
    pub get_for: GetFor,
}

/// The topics the application service listens on.
#[derive(Debug, PartialEq, Eq, Clone, Copy)]
pub enum AppTopic {
    CreateApp,
    UpdateStatus,
    GetApps,
}

/// The topic that a subscription name denotes.
pub open spec fn app_topic_named(name: Seq<char>) -> Option<AppTopic> {
    if name == "app_create"@ {
        Some(AppTopic::CreateApp)
    } else if name == "app_update"@ {
        Some(AppTopic::UpdateStatus)
    } else if name == "app_get"@ {
        Some(AppTopic::GetApps)
    } else {
        None
    }
}

/// Each subscription name of the application service denotes its own
/// action: `app_create` creates an application, `app_update` updates its
/// status, and `app_get` lists applications. Any other name denotes none.
pub proof fn law_app_topic_names(other: Seq<char>)
    requires
        other != "app_create"@,
        other != "app_update"@,
        other != "app_get"@,
    ensures
        app_topic_named("app_create"@) == Some(AppTopic::CreateApp),
        app_topic_named("app_update"@) == Some(AppTopic::UpdateStatus),
        app_topic_named("app_get"@) == Some(AppTopic::GetApps),
        app_topic_named(other) is None,
{
    reveal_strlit("app_create");
    reveal_strlit("app_update");
    reveal_strlit("app_get");
    assert("app_create"@.len() == 10 && "app_update"@.len() == 10 && "app_get"@.len() == 7);
    assert("app_update"@[4] != "app_create"@[4]);
}

/// The topic that subscription `name` carries; `None` for an unknown name.
pub fn app_topic(name: &String) -> (r: Option<AppTopic>)
    ensures
        r == app_topic_named(name@),
{
    if *name == String::from_str("app_create") {
        Some(AppTopic::CreateApp)
    } else if *name == String::from_str("app_update") {
        Some(AppTopic::UpdateStatus)
    } else if *name == String::from_str("app_get") {
        Some(AppTopic::GetApps)
    } else {
        None
    }
}

/// The subscription name of a topic.
pub fn app_topic_name(topic: AppTopic) -> (r: String)
    ensures
        app_topic_named(r@) == Some(topic),
{
    proof {
        reveal_strlit("app_create");
        reveal_strlit("app_update");
        reveal_strlit("app_get");
        assert("app_create"@.len() == 10 && "app_update"@.len() == 10 && "app_get"@.len() == 7);
        assert("app_update"@[4] != "app_create"@[4]);
    }
    match topic {
        AppTopic::CreateApp => String::from_str("app_create"),
        AppTopic::UpdateStatus => String::from_str("app_update"),
        AppTopic::GetApps => String::from_str("app_get"),
    }
}

/// The subscription names of the application service, one per topic, in
/// the order the service subscribes to them.
pub fn app_topic_names() -> (r: Vec<String>)
    ensures
        r@.len() == 3,
        forall|i: int| 0 <= i < 3 ==> (#[trigger] app_topic_named(r@[i]@)) is Some,
        forall|i: int, j: int| 0 <= i < j < 3 ==> app_topic_named(r@[i]@) != app_topic_named(r@[j]@),
{
    let mut r: Vec<String> = Vec::new();
    r.push(app_topic_name(AppTopic::CreateApp));
    r.push(app_topic_name(AppTopic::UpdateStatus));
    r.push(app_topic_name(AppTopic::GetApps));
    r
}

/// The topic the statuses are published on.
pub fn results_topic_name() -> (r: String)
    ensures
        r@ == "results"@,
{
    String::from_str("results")
}

} // verus!
