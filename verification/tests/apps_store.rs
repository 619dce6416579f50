use eventservice::apps::data_manager::generated_or_default;
use eventservice::apps::data_manager::{self, EventManager};
use eventservice::apps::types::{
    app_topic, app_topic_name, app_topic_names, outcome_status, Application, ApplicationStatus,
    AppTopic, CreateAppMessage, Message, Status,
};
use eventservice::error::ManagerError;

fn status_name(s: ApplicationStatus) -> &'static str {
    match s {
        ApplicationStatus::Created => "Created",
        ApplicationStatus::Registered => "Registered",
        ApplicationStatus::Approved => "Approved",
        ApplicationStatus::Rejected => "Rejected",
        ApplicationStatus::Postponed => "Postponed",
    }
}

fn record(a: &Application) -> Vec<u8> {
    let mut m = serde_json::Map::new();
    m.insert("id".to_string(), serde_json::Value::from(a.id));
    m.insert("user_id".to_string(), serde_json::Value::from(a.user_id));
    m.insert("event_id".to_string(), serde_json::Value::from(a.event_id));
    m.insert("status".to_string(), serde_json::Value::from(status_name(a.status)));
    serde_json::to_vec(&serde_json::Value::Object(m)).unwrap()
}

fn application(bytes: &[u8]) -> Application {
    let v: serde_json::Value = serde_json::from_slice(bytes).unwrap();
    let status = match v["status"].as_str().unwrap() {
        "Created" => ApplicationStatus::Created,
        "Registered" => ApplicationStatus::Registered,
        "Approved" => ApplicationStatus::Approved,
        "Rejected" => ApplicationStatus::Rejected,
        _ => ApplicationStatus::Postponed,
    };
    Application {
        id: v["id"].as_u64().unwrap(),
        user_id: v["user_id"].as_u64().unwrap(),
        event_id: v["event_id"].as_u64().unwrap(),
        status,
    }
}

fn create_app(m: &mut EventManager, a: &Application) -> Result<(), ManagerError> {
    m.create_app(a, &record(a))
}

fn update_status(m: &mut EventManager, id: u64, status: ApplicationStatus) -> Result<(), ManagerError> {
    let old = m.app_record(id)?;
    let mut app = application(&old);
    app.set_status(status);
    m.update_status(id, &old, &record(&app))
}

fn get_for_user(m: &EventManager, id: u64) -> Vec<Application> {
    m.get_for_user(id).unwrap().iter().map(|r| application(r)).collect()
}

fn get_for_event(m: &EventManager, id: u64) -> Vec<Application> {
    m.get_for_event(id).unwrap().iter().map(|r| application(r)).collect()
}

fn test_app(id: u64, uid: Option<u64>, eid: Option<u64>) -> Application {
    Application {
        id: id,
        user_id: uid.unwrap_or(0),
        event_id: eid.unwrap_or(0),
        status: ApplicationStatus::Created,
    }
}

#[test]
fn create_get_app_test() {
    let mut manager = data_manager::EventManager::new(&"/tmp/eventservice-test/createapptestdb".to_string())
        .expect("Failed to create db");
    let app = test_app(0, Some(1), Some(2));
    assert!(create_app(&mut manager, &app).is_ok());
    let apps = get_for_event(&manager, 2);
    assert_eq!(vec![app.clone()], apps);
    let apps = get_for_user(&manager, 1);
    assert_eq!(vec![app], apps);
    manager.reset_all().expect("Failed to delete db");
}

#[test]
fn update_app_test() {
    let mut manager = data_manager::EventManager::new(&"/tmp/eventservice-test/updateapptestdb".to_string())
        .expect("Failed to create db");
    let mut app = test_app(0, Some(1), Some(2));
    assert!(create_app(&mut manager, &app).is_ok());
    let apps = get_for_event(&manager, 2);
    assert_eq!(vec![app.clone()], apps);
    app.set_status(ApplicationStatus::Approved);
    update_status(&mut manager, app.id, ApplicationStatus::Approved).expect("Failed to update status");
    let apps = get_for_user(&manager, 1);
    assert_eq!(vec![app], apps);
    manager.reset_all().expect("Failed to delete db");
}

#[test]
fn second_create_with_same_id_is_refused() {
    let mut manager = data_manager::EventManager::new(&"/tmp/eventservice-test/dupapptestdb".to_string())
        .expect("Failed to create db");
    let app = test_app(5, Some(1), Some(2));
    create_app(&mut manager, &app).unwrap();
    let other = test_app(5, Some(3), Some(4));
    assert!(matches!(create_app(&mut manager, &other), Err(ManagerError::AppExists)));
    assert_eq!(get_for_user(&manager, 3), Vec::<Application>::new());
    assert_eq!(application(&manager.app_record(5).unwrap()), app);
    manager.reset_all().expect("Failed to delete db");
}

#[test]
fn missing_app_and_stale_record() {
    let mut manager = data_manager::EventManager::new(&"/tmp/eventservice-test/missingapptestdb".to_string())
        .expect("Failed to create db");
    assert!(matches!(manager.app_record(9), Err(ManagerError::AppNotFound)));
    let app = test_app(1, Some(1), Some(1));
    create_app(&mut manager, &app).unwrap();
    let stale = b"not the record".to_vec();
    assert!(matches!(
        manager.update_status(1, &stale, &record(&app)),
        Err(ManagerError::Conflict)
    ));
    let second = test_app(2, Some(1), Some(7));
    create_app(&mut manager, &second).unwrap();
    assert_eq!(get_for_user(&manager, 1), vec![app, second]);
    manager.reset_all().expect("Failed to delete db");
}

#[test]
fn status_constructors() {
    let s = Status::ok(7);
    assert_eq!((s.id, s.code, s.message.as_str()), (7, 200, "Ok"));
    let s = Status::new(3, 500, "bad".to_string());
    assert_eq!((s.id, s.code, s.message.as_str()), (3, 500, "bad"));
    assert_eq!(Message::new("x".to_string()).data, "x");
}

#[test]
fn outcome_status_maps_errors_to_404() {
    let s = outcome_status(11, Ok(Status::ok(4)));
    assert_eq!((s.id, s.code), (4, 200));
    let s = outcome_status(11, Err("boom".to_string()));
    assert_eq!((s.id, s.code, s.message.as_str()), (11, 404, "boom"));
}

#[test]
fn create_app_message_uses_generated_id_only_without_id() {
    let m = CreateAppMessage { message_id: 1, id: Some(0), user_id: 1, event_id: 2 };
    assert_eq!(m.application(42), test_app(0, Some(1), Some(2)));
    let m = CreateAppMessage { message_id: 1, id: None, user_id: 1, event_id: 2 };
    assert_eq!(m.application(42), test_app(42, Some(1), Some(2)));
}

#[test]
fn app_topics_roundtrip() {
    let names = app_topic_names();
    assert_eq!(names, vec!["app_create", "app_update", "app_get"]);
    assert_eq!(app_topic(&"app_get".to_string()), Some(AppTopic::GetApps));
    assert_eq!(app_topic(&"other".to_string()), None);
    for t in [AppTopic::CreateApp, AppTopic::UpdateStatus, AppTopic::GetApps] {
        assert_eq!(app_topic(&app_topic_name(t)), Some(t));
    }
}

#[test]
fn set_status_changes_only_status() {
    let mut a = test_app(3, Some(4), Some(5));
    a.set_status(ApplicationStatus::Rejected);
    assert_eq!(a, Application { id: 3, user_id: 4, event_id: 5, status: ApplicationStatus::Rejected });
}

#[test]
fn generated_id_falls_back_to_42() {
    assert_eq!(generated_or_default(Ok(7)), 7);
    let err = sled::Error::Unsupported("no counter".to_string());
    assert_eq!(generated_or_default(Err(err)), 42);
}

#[test]
fn both_applications_of_an_event_are_listed() {
    let mut manager = data_manager::EventManager::new(&"/tmp/eventservice-test/eventappstestdb".to_string())
        .expect("Failed to create db");
    let first = test_app(1, Some(10), Some(3));
    let second = test_app(2, Some(11), Some(3));
    create_app(&mut manager, &first).unwrap();
    create_app(&mut manager, &second).unwrap();
    assert_eq!(get_for_event(&manager, 3), vec![first.clone(), second.clone()]);
    assert_eq!(get_for_user(&manager, 11), vec![second]);
    assert_eq!(get_for_event(&manager, 4), Vec::<Application>::new());
    assert!(manager.reset_all().unwrap());
    assert_eq!(get_for_event(&manager, 3), Vec::<Application>::new());
}

#[test]
fn generated_app_ids_never_repeat() {
    let mut manager = data_manager::EventManager::new(&"/tmp/eventservice-test/appidgentestdb".to_string())
        .expect("Failed to create db");
    let first = manager.generate_id();
    let second = manager.generate_id();
    assert_ne!(first, second);
    manager.reset_all().expect("Failed to delete db");
}
