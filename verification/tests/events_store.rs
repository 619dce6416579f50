use eventservice::error::ManagerError;
use eventservice::events::data_manager::{self, EventManager};
use eventservice::events::order::sort_events;
use eventservice::events::types::{Category, Event, EventSortKey};

fn record(e: &Event) -> Vec<u8> {
    let mut m = serde_json::Map::new();
    m.insert("id".to_string(), serde_json::Value::from(e.id));
    m.insert("title".to_string(), serde_json::Value::from(e.title.clone()));
    m.insert("cover".to_string(), serde_json::Value::from(e.cover.clone()));
    m.insert("description".to_string(), serde_json::Value::from(e.description.clone()));
    m.insert("organizer".to_string(), serde_json::Value::from(e.organizer));
    m.insert("date_created".to_string(), serde_json::Value::from(e.date_created));
    m.insert("date_planning".to_string(), serde_json::Value::from(e.date_planning));
    m.insert("category".to_string(), serde_json::Value::from(e.category.clone()));
    serde_json::to_vec(&serde_json::Value::Object(m)).unwrap()
}

fn event(bytes: &[u8]) -> Event {
    let v: serde_json::Value = serde_json::from_slice(bytes).unwrap();
    Event {
        id: v["id"].as_u64().unwrap(),
        title: v["title"].as_str().unwrap().to_string(),
        cover: v["cover"].as_str().unwrap().to_string(),
        description: v["description"].as_str().unwrap().to_string(),
        organizer: v["organizer"].as_u64().unwrap(),
        date_created: v["date_created"].as_i64().unwrap(),
        date_planning: v["date_planning"].as_i64().unwrap(),
        category: v["category"].as_str().unwrap().to_string(),
    }
}

fn create_event(m: &mut EventManager, e: &Event) -> Result<(), ManagerError> {
    m.create_event(e, &record(e))
}

fn update_event(m: &mut EventManager, e: &Event) -> Result<(), ManagerError> {
    m.update_event(e, &record(e))
}

fn get_event(m: &EventManager, id: &u64) -> Result<Event, ManagerError> {
    m.get_event(*id).map(|b| event(&b))
}

fn delete_event(m: &mut EventManager, id: &u64) -> Result<(), ManagerError> {
    let stored = m.stored_event(*id)?.map(|bytes| event(&bytes));
    m.delete_event(*id, stored.as_ref())
}

fn get_events(
    m: &EventManager,
    sort_key: Option<&EventSortKey>,
    organizer: Option<u64>,
    category: Option<&Category>,
) -> Result<Vec<Event>, ManagerError> {
    let records = m.event_records(organizer, category)?;
    Ok(sort_events(records.iter().map(|r| event(r)).collect(), sort_key))
}

fn test_categories() -> (Category, Category, Category, Category) {
    let cat1 = "first".to_string();
    let cat2 = "second".to_string();
    let cat3 = "third".to_string();
    let cat4 = "fourth".to_string();
    (cat1, cat2, cat3, cat4)
}

fn test_events(
    cat1: Option<Category>,
    cat2: Option<Category>,
    cat3: Option<Category>,
) -> (Event, Event, Event) {
    let (tcat1, tcat2, tcat3, _) = test_categories();
    let event1 = Event {
        id: 1,
        title: "Event1".to_string(),
        cover: "N/A".to_string(),
        description: "Empty".to_string(),
        organizer: 3,
        date_created: chrono::Utc::now().timestamp(),
        date_planning: (chrono::Utc::now() + chrono::Duration::days(3)).timestamp(),
        category: cat1.unwrap_or(tcat1),
    };
    let event2 = Event {
        id: 2,
        title: "Event2".to_string(),
        cover: "N/A".to_string(),
        description: "Empty".to_string(),
        organizer: 1,
        date_created: chrono::Utc::now().timestamp() + 5,
        date_planning: (chrono::Utc::now() + chrono::Duration::days(2)).timestamp(),
        category: cat2.unwrap_or(tcat2),
    };
    let event3 = Event {
        id: 3,
        title: "Event3".to_string(),
        cover: "N/A".to_string(),
        description: "Empty".to_string(),
        organizer: 2,
        date_created: chrono::Utc::now().timestamp() + 10,
        date_planning: (chrono::Utc::now() + chrono::Duration::days(1)).timestamp(),
        category: cat3.unwrap_or(tcat3),
    };
    (event1, event2, event3)
}

#[test]
fn create_event_test() {
    let mut manager = data_manager::EventManager::new(&"/tmp/eventservice-test/createeventtestdb".to_string())
        .expect("Failed to create db");
    let (cat1, _, _, _) = test_categories();
    let (event1, _, _) = test_events(Some(cat1.clone()), None, None);
    assert!(create_event(&mut manager, &event1).is_err());
    manager.create_category(&cat1).expect("Failed to create category!");
    create_event(&mut manager, &event1).expect("Failed to create event");
    let event = get_event(&manager, &1).expect("Failed to get event");
    assert_eq!(event, event1);
    manager.reset_all().expect("Failed to delete db");
}

#[test]
fn delete_event_test() {
    let mut manager = data_manager::EventManager::new(&"/tmp/eventservice-test/deleventtestdb".to_string())
        .expect("Failed to create db");
    let (cat1, _, _, _) = test_categories();
    let (event1, event2, _) = test_events(Some(cat1.clone()), Some(cat1.clone()), None);
    manager.create_category(&cat1).expect("Failed to create category!");
    create_event(&mut manager, &event1).expect("Failed to create event");
    create_event(&mut manager, &event2).expect("Failed to create event");
    let events = get_events(&manager, Some(&EventSortKey::Title), None, None)
        .expect("Failed to get events");
    assert_eq!(events, vec![event1.clone(), event2.clone()]);
    delete_event(&mut manager, &event1.id).expect("Failed to delete event");
    let events = get_events(&manager, Some(&EventSortKey::Title), None, None)
        .expect("Failed to get events");
    assert_eq!(events, vec![event2.clone()]);
    assert!(delete_event(&mut manager, &event2.id).is_ok());
    manager.reset_all().expect("Failed to delete db");
}

#[test]
fn update_event_test() {
    let mut manager = data_manager::EventManager::new(&"/tmp/eventservice-test/updeventtestdb".to_string())
        .expect("Failed to create db");
    let (cat1, _, _, _) = test_categories();
    let (event1, _, _) = test_events(Some(cat1.clone()), None, None);
    let event2 = Event {
        id: 1,
        title: "Event2".to_string(),
        cover: "N/A".to_string(),
        description: "Empty".to_string(),
        organizer: 1,
        date_created: chrono::Utc::now().timestamp() + 5,
        date_planning: (chrono::Utc::now() + chrono::Duration::days(2)).timestamp(),
        category: cat1.clone(),
    };
    manager.create_category(&cat1).expect("Failed to create category!");
    create_event(&mut manager, &event1).expect("Failed to create event");
    assert_eq!(get_event(&manager, &1).unwrap(), event1);
    update_event(&mut manager, &event2).expect("Failed to update event");
    assert_eq!(get_event(&manager, &1).unwrap(), event2);
    manager.reset_all().expect("Failed to delete db");
}

#[test]
fn get_event_test() {
    let mut manager = data_manager::EventManager::new(&"/tmp/eventservice-test/geteventtestdb".to_string())
        .expect("Failed to create db");
    let (cat1, _, _, _) = test_categories();
    let (event1, _, _) = test_events(Some(cat1.clone()), None, None);
    manager.create_category(&cat1).expect("Failed to create category!");
    assert!(get_event(&manager, &1).is_err());
    create_event(&mut manager, &event1).expect("Failed to create event");
    assert_eq!(get_event(&manager, &1).unwrap(), event1);
    manager.reset_all().expect("Failed to delete db");
}

#[test]
fn get_events_test() {
    let mut manager = data_manager::EventManager::new(&"/tmp/eventservice-test/geteventstestdb".to_string())
        .expect("Failed to create db");
    let (cat1, cat2, _, _) = test_categories();
    let (event1, event2, event3) =
        test_events(Some(cat1.clone()), Some(cat2.clone()), Some(cat1.clone()));
    manager.create_category(&cat1).expect("Failed to create category!");
    manager.create_category(&cat2).expect("Failed to create category!");
    create_event(&mut manager, &event1).expect("Failed to create event");
    create_event(&mut manager, &event2).expect("Failed to create event");
    create_event(&mut manager, &event3).expect("Failed to create event");
    assert_eq!(
        get_events(&manager, Some(&EventSortKey::Title), None, None).unwrap(),
        vec![event1.clone(), event2.clone(), event3.clone()]
    );
    assert_eq!(
        get_events(&manager, Some(&EventSortKey::Planning), None, None).unwrap(),
        vec![event3.clone(), event2.clone(), event1.clone()]
    );
    assert_eq!(
        get_events(&manager, Some(&EventSortKey::Title), Some(1), None).unwrap(),
        vec![event2.clone()]
    );
    assert_eq!(
        get_events(&manager, Some(&EventSortKey::Title), None, Some(&cat2)).unwrap(),
        vec![event2.clone()]
    );
    assert_eq!(
        get_events(&manager, Some(&EventSortKey::Title), Some(2), Some(&cat1)).unwrap(),
        vec![event3.clone()]
    );
    manager.reset_all().expect("Failed to delete db");
}

#[test]
fn category_get_delete_test() {
    let mut manager = data_manager::EventManager::new(&"/tmp/eventservice-test/cattestdb".to_string())
        .expect("Failed to create db");
    let (cat1, cat2, cat3, cat4) = test_categories();
    manager.create_category(&cat1).expect("Failed to create category");
    manager.create_category(&cat2).expect("Failed to create category");
    manager.create_category(&cat3).expect("Failed to create category");
    assert_eq!(
        manager.get_categories().unwrap(),
        vec![cat1.clone(), cat2.clone(), cat3.clone()]
    );
    manager.delete_category(&cat1).expect("Failed to delete category");
    assert!(manager.delete_category(&cat4).is_err());
    assert_eq!(manager.get_categories().unwrap(), vec![cat2, cat3]);
    manager.reset_all().expect("Failed to delete db");
}

#[test]
fn merge_categories_test() {
    let mut manager = data_manager::EventManager::new(&"/tmp/eventservice-test/mergetestdb".to_string())
        .expect("Failed to create db");
    let (cat1, cat2, _, _) = test_categories();
    let (event1, event2, event3) =
        test_events(Some(cat1.clone()), Some(cat2.clone()), Some(cat1.clone()));
    manager.create_category(&cat1).expect("Failed to create category!");
    manager.create_category(&cat2).expect("Failed to create category!");
    create_event(&mut manager, &event1).expect("Failed to create event");
    create_event(&mut manager, &event2).expect("Failed to create event");
    create_event(&mut manager, &event3).expect("Failed to create event");
    assert_eq!(
        get_events(&manager, Some(&EventSortKey::Title), None, Some(&cat2)).unwrap(),
        vec![event2.clone()]
    );
    assert_eq!(
        get_events(&manager, Some(&EventSortKey::Title), None, Some(&cat1)).unwrap(),
        vec![event1.clone(), event3.clone()]
    );
    manager.merge_categories(&cat1, &cat2).expect("Failed to merge");
    assert_eq!(
        get_events(&manager, Some(&EventSortKey::Title), None, Some(&cat1)).unwrap(),
        vec![event1, event2, event3]
    );
    manager.reset_all().expect("Failed to delete db");
}

#[test]
fn unknown_category_keeps_record_and_organizer_entry() {
    let mut manager = data_manager::EventManager::new(&"/tmp/eventservice-test/unknowncattestdb".to_string())
        .expect("Failed to create db");
    let (event1, _, _) = test_events(Some("missing".to_string()), None, None);
    assert!(matches!(
        create_event(&mut manager, &event1),
        Err(ManagerError::UnknownCategory)
    ));
    assert_eq!(get_event(&manager, &1).unwrap(), event1);
    assert_eq!(manager.events_for_organizer(3).unwrap(), vec![1]);
    assert!(matches!(manager.get_event(9), Err(ManagerError::EventNotFound)));
    manager.reset_all().expect("Failed to delete db");
}

#[test]
fn index_entries_follow_creates_and_deletes() {
    let mut manager = data_manager::EventManager::new(&"/tmp/eventservice-test/indextestdb".to_string())
        .expect("Failed to create db");
    let cat = "first".to_string();
    let (e1, e2, e3) = test_events(Some(cat.clone()), Some(cat.clone()), Some(cat.clone()));
    manager.create_category(&cat).unwrap();
    manager.create_category(&cat).unwrap();
    create_event(&mut manager, &e1).unwrap();
    create_event(&mut manager, &e2).unwrap();
    create_event(&mut manager, &e3).unwrap();
    assert_eq!(manager.events_for_category(&cat).unwrap(), vec![1, 2, 3]);
    assert_eq!(manager.events_for_organizer(2).unwrap(), vec![3]);
    assert_eq!(manager.events_for_organizer(99).unwrap(), Vec::<u64>::new());
    delete_event(&mut manager, &1).unwrap();
    assert_eq!(manager.events_for_category(&cat).unwrap(), vec![2, 3]);
    assert!(manager.stored_event(1).unwrap().is_none());
    assert!(delete_event(&mut manager, &1).is_ok());
    manager.reset_all().expect("Failed to delete db");
}

#[test]
fn merge_from_missing_category_fails() {
    let mut manager = data_manager::EventManager::new(&"/tmp/eventservice-test/mergemissingtestdb".to_string())
        .expect("Failed to create db");
    let a = "a".to_string();
    let b = "b".to_string();
    manager.create_category(&a).unwrap();
    assert!(matches!(
        manager.merge_categories(&a, &b),
        Err(ManagerError::CategoryNotFound)
    ));
    assert_eq!(manager.get_categories().unwrap(), vec![a.clone()]);
    manager.merge_categories(&b, &a).unwrap();
    assert_eq!(manager.get_categories().unwrap(), vec![b]);
    manager.reset_all().expect("Failed to delete db");
}

#[test]
fn reset_leaves_every_listing_empty() {
    let mut manager = data_manager::EventManager::new(&"/tmp/eventservice-test/resettestdb".to_string())
        .expect("Failed to create db");
    let cat = "first".to_string();
    let (e1, _, _) = test_events(Some(cat.clone()), None, None);
    manager.create_category(&cat).unwrap();
    create_event(&mut manager, &e1).unwrap();
    assert_eq!(manager.event_records(None, None).unwrap().len(), 1);
    assert!(manager.reset_all().unwrap());
    assert!(manager.event_records(None, None).unwrap().is_empty());
    assert!(manager.event_records(Some(3), Some(&cat)).unwrap().is_empty());
    assert!(manager.get_categories().unwrap().is_empty());
    assert!(manager.stored_event(1).unwrap().is_none());
}

#[test]
fn delete_without_stored_event_changes_nothing() {
    let mut manager = data_manager::EventManager::new(&"/tmp/eventservice-test/delnonetestdb".to_string())
        .expect("Failed to create db");
    let cat = "first".to_string();
    let (e1, _, _) = test_events(Some(cat.clone()), None, None);
    manager.create_category(&cat).unwrap();
    create_event(&mut manager, &e1).unwrap();
    assert!(manager.delete_event(1, None).is_ok());
    assert_eq!(get_event(&manager, &1).unwrap(), e1);
    assert_eq!(manager.events_for_category(&cat).unwrap(), vec![1]);
    assert!(manager.delete_event(7, Some(&e1)).is_ok());
    assert_eq!(manager.events_for_organizer(3).unwrap(), vec![1]);
    manager.reset_all().expect("Failed to delete db");
}

#[test]
fn filtered_listing_gives_each_event_once() {
    let mut manager = data_manager::EventManager::new(&"/tmp/eventservice-test/oncetestdb".to_string())
        .expect("Failed to create db");
    let cat = "first".to_string();
    let (e1, e2, _) = test_events(Some(cat.clone()), Some(cat.clone()), None);
    manager.create_category(&cat).unwrap();
    create_event(&mut manager, &e1).unwrap();
    create_event(&mut manager, &e1).unwrap();
    create_event(&mut manager, &e2).unwrap();
    assert_eq!(manager.events_for_category(&cat).unwrap(), vec![1, 1, 2]);
    assert_eq!(
        get_events(&manager, Some(&EventSortKey::Title), None, Some(&cat)).unwrap(),
        vec![e1.clone(), e2.clone()]
    );
    assert_eq!(
        get_events(&manager, Some(&EventSortKey::Title), Some(3), Some(&cat)).unwrap(),
        vec![e1.clone()]
    );
    assert!(get_events(&manager, None, Some(3), Some(&"other".to_string())).unwrap().is_empty());
    manager.reset_all().expect("Failed to delete db");
}

#[test]
fn generated_ids_never_repeat() {
    let mut manager = data_manager::EventManager::new(&"/tmp/eventservice-test/idgentestdb".to_string())
        .expect("Failed to create db");
    let first = manager.generate_id().unwrap();
    let cat = "first".to_string();
    manager.create_category(&cat).unwrap();
    let second = manager.generate_id().unwrap();
    let third = manager.generate_id().unwrap();
    assert_ne!(first, second);
    assert_ne!(second, third);
    assert_ne!(first, third);
    manager.reset_all().expect("Failed to delete db");
}
