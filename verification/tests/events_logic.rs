use eventservice::batch::split_batch;
use eventservice::events::pstypes::{batch_step, BatchStep};
use eventservice::events::compare::{compare_by_val, sorts_after};
use eventservice::events::data_manager::select_ids;
use eventservice::events::order::sort_events;
use eventservice::events::pstypes::{
    event_topic, event_topic_name, event_topic_names, outcome_status, results_topic_name,
    CreateEventMessage, EventTopic, Status, UpdateEventMessage,
};
use eventservice::events::types::{Event, EventSortKey};
use std::cmp::Ordering;

fn ev(id: u64, title: &str, organizer: u64, created: i64, planning: i64) -> Event {
    Event {
        id,
        title: title.to_string(),
        cover: "N/A".to_string(),
        description: "Empty".to_string(),
        organizer,
        date_created: created,
        date_planning: planning,
        category: "c".to_string(),
    }
}

#[test]
fn compare_by_each_key() {
    let a = ev(1, "apple", 5, 10, 30);
    let b = ev(2, "banana", 3, 20, 20);
    assert_eq!(compare_by_val(Some(&EventSortKey::Title), &a, &b), Some(Ordering::Less));
    assert_eq!(compare_by_val(Some(&EventSortKey::Organizer), &a, &b), Some(Ordering::Greater));
    assert_eq!(compare_by_val(Some(&EventSortKey::Created), &a, &b), Some(Ordering::Less));
    assert_eq!(compare_by_val(Some(&EventSortKey::Planning), &a, &b), Some(Ordering::Greater));
    assert_eq!(compare_by_val(Some(&EventSortKey::Default), &a, &b), Some(Ordering::Greater));
    assert_eq!(compare_by_val(None, &a, &b), Some(Ordering::Greater));
    assert_eq!(compare_by_val(Some(&EventSortKey::Title), &a, &a), Some(Ordering::Equal));
    assert!(sorts_after(None, &a, &b));
    assert!(!sorts_after(None, &b, &a));
}

#[test]
fn titles_compare_by_bytes() {
    let a = ev(1, "Zebra", 0, 0, 0);
    let b = ev(2, "apple", 0, 0, 0);
    let c = ev(3, "app", 0, 0, 0);
    assert_eq!(compare_by_val(Some(&EventSortKey::Title), &a, &b), Some(Ordering::Less));
    assert_eq!(compare_by_val(Some(&EventSortKey::Title), &c, &b), Some(Ordering::Less));
    assert_eq!(compare_by_val(Some(&EventSortKey::Title), &b, &c), Some(Ordering::Greater));
}

#[test]
fn sort_is_ordered_and_stable() {
    let e1 = ev(1, "b", 2, 0, 5);
    let e2 = ev(2, "a", 1, 0, 5);
    let e3 = ev(3, "c", 2, 0, 1);
    let e4 = ev(4, "a", 1, 0, 9);
    let input = vec![e1.clone(), e2.clone(), e3.clone(), e4.clone()];
    assert_eq!(
        sort_events(input.clone(), Some(&EventSortKey::Title)),
        vec![e2.clone(), e4.clone(), e1.clone(), e3.clone()]
    );
    assert_eq!(
        sort_events(input.clone(), Some(&EventSortKey::Organizer)),
        vec![e2.clone(), e4.clone(), e1.clone(), e3.clone()]
    );
    assert_eq!(
        sort_events(input.clone(), None),
        vec![e3.clone(), e1.clone(), e2.clone(), e4.clone()]
    );
    assert_eq!(sort_events(Vec::new(), None), Vec::<Event>::new());
}

#[test]
fn select_ids_intersects_and_dedups() {
    let mut both = select_ids(Some(vec![1, 2, 3, 2]), Some(vec![3, 2, 2, 5]));
    both.sort();
    assert_eq!(both, vec![2, 3]);
    let mut org = select_ids(Some(vec![4, 4, 1]), None);
    org.sort();
    assert_eq!(org, vec![1, 4]);
    let mut cat = select_ids(None, Some(vec![9, 9]));
    cat.sort();
    assert_eq!(cat, vec![9]);
    assert_eq!(select_ids(None, None), Vec::<u64>::new());
}

#[test]
fn event_status_and_outcome() {
    let s = Status::ok();
    assert_eq!((s.code, s.message.as_str()), (200, "Ok"));
    let s = Status::new(201, "made".to_string());
    assert_eq!((s.code, s.message.as_str()), (201, "made"));
    let s = outcome_status(Err("Failed to delete event".to_string()));
    assert_eq!((s.code, s.message.as_str()), (404, "Failed to delete event"));
    let s = outcome_status(Ok(Status::new(200, "{}".to_string())));
    assert_eq!((s.code, s.message.as_str()), (200, "{}"));
}

#[test]
fn messages_build_events() {
    let m = CreateEventMessage {
        id: None,
        title: "T".to_string(),
        cover: "C".to_string(),
        description: "D".to_string(),
        organizer: 4,
        date_planning: 99,
        category: "cat".to_string(),
    };
    let e = m.event(17, 50);
    assert_eq!(e.id, 17);
    assert_eq!(e.date_created, 50);
    assert_eq!(e.date_planning, 99);
    assert_eq!(e.category, "cat");
    let m2 = CreateEventMessage { id: Some(3), ..m };
    assert_eq!(m2.event(17, 50).id, 3);
    let u = UpdateEventMessage {
        id: 8,
        title: "T".to_string(),
        cover: "C".to_string(),
        description: "D".to_string(),
        organizer: 4,
        date_created: 1,
        date_planning: 2,
        category: "k".to_string(),
    };
    let e = u.event();
    assert_eq!((e.id, e.organizer, e.date_created, e.date_planning), (8, 4, 1, 2));
    assert_eq!(e.title, "T");
}

#[test]
fn event_topics_roundtrip() {
    let names = event_topic_names();
    assert_eq!(
        names,
        vec![
            "event_create",
            "event_delete",
            "event_update",
            "event_get",
            "events",
            "categories",
            "category_create",
            "category_delete",
            "category_merge"
        ]
    );
    for n in &names {
        let t = event_topic(n).unwrap();
        assert_eq!(&event_topic_name(t), n);
    }
    assert_eq!(event_topic(&"results".to_string()), None);
    assert_eq!(event_topic(&"events".to_string()), Some(EventTopic::GetEvents));
    assert_eq!(results_topic_name(), "results");
}

#[test]
fn batch_split_and_step() {
    let batch: Vec<(Result<u32, String>, String)> = vec![
        (Ok(1), "a".to_string()),
        (Err("bad".to_string()), "b".to_string()),
        (Ok(3), "c".to_string()),
    ];
    let (values, ids) = split_batch(batch);
    assert_eq!(values, vec![1, 3]);
    assert_eq!(ids, vec!["a", "b", "c"]);
    assert_eq!(batch_step(&"events".to_string(), 0), BatchStep::Skip);
    assert_eq!(batch_step(&"events".to_string(), 2), BatchStep::Handle(EventTopic::GetEvents));
    assert_eq!(batch_step(&"nope".to_string(), 2), BatchStep::UnknownTopic);
}
