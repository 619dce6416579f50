//! The three-way comparison of events by a sort field.

use crate::codec::{compare_bytes, order_i64, order_u64};
use crate::events::order::{event_order, opt_key};
use crate::events::types::{Event, EventSortKey};
use std::cmp::Ordering;
use vstd::prelude::*;

verus! {

/// The ordering that a three-way result -1, 0 or 1 stands for.
pub open spec fn ordering_of(c: int) -> Ordering {
    if c < 0 {
        Ordering::Less
    } else if c == 0 {
        Ordering::Equal
    } else {
        Ordering::Greater
    }
}

/// The ordering that a three-way result stands for.
fn ordering_from(c: i8) -> (r: Ordering)
    ensures
        c < 0 ==> r == Ordering::Less,
        c == 0 ==> r == Ordering::Equal,
        c > 0 ==> r == Ordering::Greater,
{
    if c < 0 {
        Ordering::Less
    } else if c == 0 {
        Ordering::Equal
    } else {
        Ordering::Greater
    }
}

/// Compares two events by the field that `key` names: the title (by its
/// bytes), the organizer, the creation date, or the planning date, which is
/// also used for `Planning`, `Default` and no key. Always `Some`.
pub fn compare_by_val(key: Option<&EventSortKey>, a: &Event, b: &Event) -> (r: Option<Ordering>)
    ensures
        r == Some(ordering_of(event_order(opt_key(key), *a, *b))),
{
    let c = match key {
        Some(value) => match value {
            EventSortKey::Title => compare_bytes(a.title.as_str().as_bytes(), b.title.as_str().as_bytes()),
            EventSortKey::Organizer => order_u64(a.organizer, b.organizer),
            EventSortKey::Created => order_i64(a.date_created, b.date_created),
            EventSortKey::Planning | EventSortKey::Default => order_i64(
                a.date_planning,
                b.date_planning,
            ),
        },
        None => order_i64(a.date_planning, b.date_planning),
    };
    Some(ordering_from(c))
}

/// Whether `a` sorts strictly after `b`; a missing comparison counts as
/// equal.
pub fn sorts_after(key: Option<&EventSortKey>, a: &Event, b: &Event) -> (r: bool)
    ensures
        r == (event_order(opt_key(key), *a, *b) > 0),
{
    match compare_by_val(key, a, b) {
        Some(Ordering::Greater) => true,
        _ => false,
    }
}

} // verus!
