//! Ordering lists of events by a sort field: a stable insertion sort.

use crate::codec::{
    bytes_lt, bytes_order, int_order, lemma_bytes_lt_irreflexive, lemma_bytes_lt_total,
    lemma_bytes_lt_transitive,
};
use crate::events::compare::sorts_after;
use crate::events::types::{Event, EventSortKey};
use vstd::prelude::*;
use vstd::utf8::encode_utf8;

verus! {

/// The sort key that an optional reference names.
pub open spec fn opt_key(key: Option<&EventSortKey>) -> Option<EventSortKey> {
    match key {
        Some(k) => Some(*k),
        None => None,
    }
}

/// Three-way order of two events by the field that `key` names: -1 when
/// `a` comes first, 1 when `b` does, 0 when the field is equal. Titles are
/// ordered by their UTF-8 bytes; `Planning`, `Default` and no key order by
/// the planning date.
pub open spec fn event_order(key: Option<EventSortKey>, a: Event, b: Event) -> int {
    match key {
        Some(EventSortKey::Title) => bytes_order(encode_utf8(a.title@), encode_utf8(b.title@)),
        Some(EventSortKey::Organizer) => int_order(a.organizer as int, b.organizer as int),
        Some(EventSortKey::Created) => int_order(a.date_created as int, b.date_created as int),
        _ => int_order(a.date_planning as int, b.date_planning as int),
    }
}

/// Where `e` goes into `s`: after the last element that does not sort
/// after it.
pub open spec fn insert_pos(key: Option<EventSortKey>, s: Seq<Event>, e: Event) -> int
    decreases s.len(),
{
    if s.len() == 0 {
        0
    } else if event_order(key, s.last(), e) > 0 {
        insert_pos(key, s.drop_last(), e)
    } else {
        s.len() as int
    }
}

/// `s` with `e` inserted at its place.
pub open spec fn insert_sorted(key: Option<EventSortKey>, s: Seq<Event>, e: Event) -> Seq<Event> {
    s.insert(insert_pos(key, s, e), e)
}

/// The events of `s` as the insertion sort orders them: each event, in
/// turn, is inserted after the events already placed that do not sort
/// after it.
pub open spec fn sorted_by(key: Option<EventSortKey>, s: Seq<Event>) -> Seq<Event>
    decreases s.len(),
{
    if s.len() == 0 {
        s
    } else {
        insert_sorted(key, sorted_by(key, s.drop_last()), s.last())
    }
}

/// The insertion place lies within the sequence.
pub proof fn lemma_insert_pos_bounds(key: Option<EventSortKey>, s: Seq<Event>, e: Event)
    ensures
        0 <= insert_pos(key, s, e) <= s.len(),
    decreases s.len(),
{
    if s.len() > 0 {
        lemma_insert_pos_bounds(key, s.drop_last(), e);
    }
}

/// Orders `events` by the field that `sort_key` names, keeping the input
/// order of events whose field is equal.
pub fn sort_events(events: Vec<Event>, sort_key: Option<&EventSortKey>) -> (r: Vec<Event>)
    ensures
        r@ == sorted_by(opt_key(sort_key), events@),
{
    let ghost key = opt_key(sort_key);
    let ghost orig = events@;
    let mut rest = events;
    let mut out: Vec<Event> = Vec::new();
    let n = rest.len();
    let mut i: usize = 0;
    assert(orig.take(0) =~= Seq::<Event>::empty());
    while i < n
        invariant
            n == orig.len(),
            i <= n,
            key == opt_key(sort_key),
            rest@ == orig.skip(i as int),
            out@ == sorted_by(key, orig.take(i as int)),
        decreases n - i,
    {
        assert(rest@[0] == orig[i as int]);
        let e = rest.remove(0);
        let mut j = out.len();
        assert(out@.take(j as int) =~= out@);
        while j > 0 && sorts_after(sort_key, &out[j - 1], &e)
            invariant
                j <= out@.len(),
                key == opt_key(sort_key),
                insert_pos(key, out@, e) == insert_pos(key, out@.take(j as int), e),
            decreases j,
        {
            proof {
                assert(out@.take(j as int).drop_last() =~= out@.take(j - 1));
                assert(out@.take(j as int).last() == out@[j - 1]);
            }
            j = j - 1;
        }
        proof {
            if j > 0 {
                assert(out@.take(j as int).last() == out@[j - 1]);
            }
            assert(orig.take(i + 1).drop_last() =~= orig.take(i as int));
            assert(orig.take(i + 1).last() == e);
        }
        out.insert(j, e);
        assert(rest@ =~= orig.skip(i + 1));
        i = i + 1;
    }
    assert(orig.take(n as int) =~= orig);
    out
}

/// Every event of `s` sorts no later than each event after it.
pub open spec fn is_sorted_by(key: Option<EventSortKey>, s: Seq<Event>) -> bool {
    forall|i: int, j: int| 0 <= i < j < s.len() ==> event_order(key, s[i], s[j]) <= 0
}

/// Swapping the events flips the order.
pub proof fn lemma_event_order_flip(key: Option<EventSortKey>, a: Event, b: Event)
    ensures
        event_order(key, a, b) == -event_order(key, b, a),
        -1 <= event_order(key, a, b) <= 1,
{
    let x = encode_utf8(a.title@);
    let y = encode_utf8(b.title@);
    lemma_bytes_lt_total(x, y);
    lemma_bytes_lt_irreflexive(x);
}

/// "Sorts no later than" is transitive.
pub proof fn lemma_event_order_transitive(key: Option<EventSortKey>, a: Event, b: Event, c: Event)
    requires
        event_order(key, a, b) <= 0,
        event_order(key, b, c) <= 0,
    ensures
        event_order(key, a, c) <= 0,
{
    let x = encode_utf8(a.title@);
    let y = encode_utf8(b.title@);
    let z = encode_utf8(c.title@);
    if key == Some(EventSortKey::Title) {
        lemma_bytes_lt_total(x, y);
        lemma_bytes_lt_total(y, z);
        lemma_bytes_lt_total(x, z);
        if bytes_lt(x, y) && bytes_lt(y, z) {
            lemma_bytes_lt_transitive(x, y, z);
        }
        if bytes_lt(z, x) {
            if bytes_lt(x, y) {
                lemma_bytes_lt_transitive(z, x, y);
            }
            if bytes_lt(y, z) {
                lemma_bytes_lt_transitive(y, z, x);
            }
        }
    }
}

/// Every event from the insertion place on sorts after `e`, and the one
/// just before it does not.
proof fn lemma_insert_pos_splits(key: Option<EventSortKey>, s: Seq<Event>, e: Event)
    ensures
        forall|i: int| insert_pos(key, s, e) <= i < s.len() ==> event_order(key, #[trigger] s[i], e) > 0,
        insert_pos(key, s, e) > 0 ==> event_order(key, s[insert_pos(key, s, e) - 1], e) <= 0,
    decreases s.len(),
{
    lemma_insert_pos_bounds(key, s, e);
    if s.len() > 0 && event_order(key, s.last(), e) > 0 {
        lemma_insert_pos_splits(key, s.drop_last(), e);
        lemma_insert_pos_bounds(key, s.drop_last(), e);
        assert forall|i: int| insert_pos(key, s, e) <= i < s.len() implies event_order(
            key,
            #[trigger] s[i],
            e,
        ) > 0 by {
            if i < s.len() - 1 {
                assert(s[i] == s.drop_last()[i]);
            }
        }
        if insert_pos(key, s, e) > 0 {
            assert(s[insert_pos(key, s, e) - 1] == s.drop_last()[insert_pos(key, s, e) - 1]);
        }
    }
}

/// Inserting at the insertion place keeps a sorted sequence sorted.
proof fn lemma_insert_sorted_keeps_order(key: Option<EventSortKey>, s: Seq<Event>, e: Event)
    requires
        is_sorted_by(key, s),
    ensures
        is_sorted_by(key, insert_sorted(key, s, e)),
{
    let p = insert_pos(key, s, e);
    lemma_insert_pos_bounds(key, s, e);
    lemma_insert_pos_splits(key, s, e);
    let t = s.insert(p, e);
    assert forall|i: int, j: int| 0 <= i < j < t.len() implies event_order(key, t[i], t[j]) <= 0 by {
        if i < p && j < p {
            assert(t[i] == s[i] && t[j] == s[j]);
        } else if i < p && j == p {
            assert(t[i] == s[i]);
            if i < p - 1 {
                lemma_event_order_transitive(key, s[i], s[p - 1], e);
            }
        } else if i < p && j > p {
            assert(t[i] == s[i] && t[j] == s[j - 1]);
        } else if i == p {
            assert(t[j] == s[j - 1]);
            assert(event_order(key, s[j - 1], e) > 0);
            lemma_event_order_flip(key, e, s[j - 1]);
        } else {
            assert(t[i] == s[i - 1] && t[j] == s[j - 1]);
        }
    }
}

/// The sort puts the events in order of the sort field.
pub proof fn law_sorted_by_is_sorted(key: Option<EventSortKey>, s: Seq<Event>)
    ensures
        is_sorted_by(key, sorted_by(key, s)),
    decreases s.len(),
{
    if s.len() > 0 {
        law_sorted_by_is_sorted(key, s.drop_last());
        lemma_insert_sorted_keeps_order(key, sorted_by(key, s.drop_last()), s.last());
    }
}

/// The sort keeps every event, as often as it occurs, and adds none.
pub proof fn law_sorted_by_is_permutation(key: Option<EventSortKey>, s: Seq<Event>)
    ensures
        sorted_by(key, s).to_multiset() == s.to_multiset(),
        sorted_by(key, s).len() == s.len(),
    decreases s.len(),
{
    broadcast use vstd::seq_lib::to_multiset_insert, vstd::seq_lib::to_multiset_build;

    if s.len() > 0 {
        let r = sorted_by(key, s.drop_last());
        law_sorted_by_is_permutation(key, s.drop_last());
        lemma_insert_pos_bounds(key, r, s.last());
        assert(s.drop_last().push(s.last()) =~= s);
    }
}

/// Comparing two events by a key compares the field that the key names:
/// titles by the bytes of their UTF-8 encoding, organizers, creation dates,
/// and planning dates (for `Planning`, `Default` and no key). Each result is
/// below, at or above zero exactly as that field is below, equal to or
/// above the other's.
pub proof fn law_event_order_by_field(a: Event, b: Event)
    ensures
        event_order(Some(EventSortKey::Title), a, b) < 0 <==> bytes_lt(encode_utf8(a.title@), encode_utf8(b.title@)),
        event_order(Some(EventSortKey::Title), a, b) == 0 <==> encode_utf8(a.title@) == encode_utf8(b.title@),
        event_order(Some(EventSortKey::Title), a, b) == 0 <==> a.title@ == b.title@,
        event_order(Some(EventSortKey::Organizer), a, b) < 0 <==> a.organizer < b.organizer,
        event_order(Some(EventSortKey::Organizer), a, b) == 0 <==> a.organizer == b.organizer,
        event_order(Some(EventSortKey::Created), a, b) < 0 <==> a.date_created < b.date_created,
        event_order(Some(EventSortKey::Created), a, b) == 0 <==> a.date_created == b.date_created,
        event_order(Some(EventSortKey::Planning), a, b) < 0 <==> a.date_planning < b.date_planning,
        event_order(Some(EventSortKey::Planning), a, b) == 0 <==> a.date_planning == b.date_planning,
        event_order(Some(EventSortKey::Default), a, b) < 0 <==> a.date_planning < b.date_planning,
        event_order(Some(EventSortKey::Default), a, b) == 0 <==> a.date_planning == b.date_planning,
        event_order(None, a, b) < 0 <==> a.date_planning < b.date_planning,
        event_order(None, a, b) == 0 <==> a.date_planning == b.date_planning,
{
    let x = encode_utf8(a.title@);
    let y = encode_utf8(b.title@);
    lemma_bytes_lt_total(x, y);
    lemma_bytes_lt_irreflexive(x);
    vstd::utf8::encode_utf8_decode_utf8(a.title@);
    vstd::utf8::encode_utf8_decode_utf8(b.title@);
}

/// A list sorted by a key has that key's field in non-decreasing order:
/// creation dates for `Created`, planning dates for `Planning`, `Default`
/// and no key, organizers for `Organizer`, and title bytes for `Title`.
pub proof fn law_sorted_fields_ascend(key: Option<EventSortKey>, s: Seq<Event>)
    ensures
        forall|i: int, j: int|
            0 <= i < j < sorted_by(key, s).len() ==> {
                let a = #[trigger] sorted_by(key, s)[i];
                let b = #[trigger] sorted_by(key, s)[j];
                match key {
                    Some(EventSortKey::Title) => !bytes_lt(encode_utf8(b.title@), encode_utf8(a.title@)),
                    Some(EventSortKey::Organizer) => a.organizer <= b.organizer,
                    Some(EventSortKey::Created) => a.date_created <= b.date_created,
                    _ => a.date_planning <= b.date_planning,
                }
            },
{
    law_sorted_by_is_sorted(key, s);
    let t = sorted_by(key, s);
    assert forall|i: int, j: int| 0 <= i < j < t.len() implies {
        let a = #[trigger] t[i];
        let b = #[trigger] t[j];
        match key {
            Some(EventSortKey::Title) => !bytes_lt(encode_utf8(b.title@), encode_utf8(a.title@)),
            Some(EventSortKey::Organizer) => a.organizer <= b.organizer,
            Some(EventSortKey::Created) => a.date_created <= b.date_created,
            _ => a.date_planning <= b.date_planning,
        }
    } by {
        assert(event_order(key, t[i], t[j]) <= 0);
        law_event_order_by_field(t[i], t[j]);
        lemma_bytes_lt_total(encode_utf8(t[i].title@), encode_utf8(t[j].title@));
    }
}

} // verus!
