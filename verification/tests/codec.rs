use eventservice::apps;
use eventservice::codec::{compare_bytes, id_to_bytes, ids_to_vec, remove_id};
use eventservice::events::data_manager;

#[test]
fn tests_merge_test() {
    assert_eq!(
        data_manager::merge(b"", Some(b"ab"), b"cd"),
        Some((b"abcd").to_vec())
    );
}

#[test]
fn merge_test() {
    assert_eq!(
        apps::data_manager::merge(b"", Some(b"ab"), b"cd"),
        Some((b"abcd").to_vec())
    );
}

#[test]
fn merge_without_old_value_is_new_value() {
    assert_eq!(data_manager::merge(b"k", None, b"xyz"), Some(b"xyz".to_vec()));
}

#[test]
fn id_bytes_are_big_endian() {
    assert_eq!(id_to_bytes(1), vec![0, 0, 0, 0, 0, 0, 0, 1]);
    assert_eq!(id_to_bytes(0x0102030405060708), vec![1, 2, 3, 4, 5, 6, 7, 8]);
    assert_eq!(id_to_bytes(u64::MAX), vec![255; 8]);
}

#[test]
fn ids_roundtrip_and_partial_chunk_ignored() {
    let mut data = id_to_bytes(7);
    data.extend(id_to_bytes(300));
    assert_eq!(ids_to_vec(&data), vec![7, 300]);
    data.extend([1, 2, 3]);
    assert_eq!(ids_to_vec(&data), vec![7, 300]);
    assert_eq!(ids_to_vec(&[]), Vec::<u64>::new());
}

#[test]
fn remove_first_id() {
    let mut data = id_to_bytes(1);
    data.extend(id_to_bytes(2));
    let rest = remove_id(&data, &id_to_bytes(1)).unwrap();
    assert_eq!(ids_to_vec(&rest), vec![2]);
}

#[test]
fn remove_missing_id_is_none() {
    let data = id_to_bytes(1);
    assert_eq!(remove_id(&data, &id_to_bytes(5)), None);
}

#[test]
fn remove_later_id_cuts_at_chunk_position() {
    // The match is chunk 1, so the eight bytes from byte offset 1 are cut.
    let mut data = id_to_bytes(1);
    data.extend(id_to_bytes(2));
    let rest = remove_id(&data, &id_to_bytes(2)).unwrap();
    let mut expected = vec![data[0]];
    expected.extend(&data[9..]);
    assert_eq!(rest, expected);
}

#[test]
fn merging_id_lists_keeps_earlier_ids_in_order() {
    let mut a = Vec::new();
    for id in [5u64, 1, 9] {
        a.extend(id_to_bytes(id));
    }
    let mut b = Vec::new();
    for id in [3u64, 5] {
        b.extend(id_to_bytes(id));
    }
    let merged = data_manager::merge(b"key", Some(&a), &b).unwrap();
    assert_eq!(ids_to_vec(&merged), vec![5, 1, 9, 3, 5]);
    let fresh = data_manager::merge(b"key", None, &b).unwrap();
    assert_eq!(ids_to_vec(&fresh), vec![3, 5]);
}

#[test]
fn id_bytes_order_is_numeric_order() {
    assert_eq!(compare_bytes(&id_to_bytes(1), &id_to_bytes(256)), -1);
    assert_eq!(compare_bytes(&id_to_bytes(300), &id_to_bytes(2)), 1);
    assert_eq!(compare_bytes(&id_to_bytes(7), &id_to_bytes(7)), 0);
}
