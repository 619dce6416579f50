//! What holds of the event store across operations.

use crate::codec::{
    bytes_lt, first_chunk, id_bytes, ids_of, lemma_bytes_lt_irreflexive, lemma_id_bytes_injective,
    lemma_ids_of_append, lemma_ids_of_concat,
    lemma_without_id_at_front, without_id,
};
use crate::events::data_manager::{category_key, category_names, id_key, EventStore};
use crate::store::{
    all_read, entries_of, entry_values, kept_ids, kept_records, law_entries_list_every_key,
    lemma_kept_ids, lemma_ok_pairs_ascending, lemma_ok_pairs_sound, ok_pairs, reads_agree,
};
use vstd::utf8::{
    decode_utf8, decode_utf8_encode_utf8, encode_utf8_decode_utf8, encode_utf8_valid_utf8, valid_utf8,
};
use crate::events::order::{is_sorted_by, law_sorted_by_is_permutation, law_sorted_by_is_sorted, sorted_by};
use crate::events::types::{Event, EventSortKey};
use crate::index::{entry_or_empty, file_id, unfile_id};
use vstd::prelude::*;

verus! {

/// Every entry of an index holds whole eight-byte chunks.
pub open spec fn whole_chunks(m: Map<Seq<u8>, Seq<u8>>) -> bool {
    forall|k: Seq<u8>| #[trigger] m.contains_key(k) ==> m[k].len() % 8 == 0
}

/// Both indexes of the store hold whole chunks.
pub open spec fn chunked(s: EventStore) -> bool {
    whole_chunks(s.organizers) && whole_chunks(s.categories)
}

pub(crate) proof fn lemma_file_keeps_chunks(m: Map<Seq<u8>, Seq<u8>>, k: Seq<u8>, id: u64)
    requires
        whole_chunks(m),
    ensures
        whole_chunks(file_id(m, k, id)),
        entry_or_empty(file_id(m, k, id), k) == entry_or_empty(m, k) + id_bytes(id),
{
    assert(id_bytes(id).len() == 8);
}

proof fn lemma_unfile_keeps_chunks(m: Map<Seq<u8>, Seq<u8>>, k: Seq<u8>, id: Seq<u8>)
    requires
        whole_chunks(m),
    ensures
        whole_chunks(unfile_id(m, k, id)),
{
    if m.contains_key(k) {
        match without_id(m[k], id) {
            Some(rest) => {
                let c = choose|q: int| crate::codec::is_first_chunk(m[k], id, q);
                assert(crate::codec::is_first_chunk(m[k], id, c));
                assert(rest.len() == m[k].len() - 8);
            },
            None => {},
        }
    }
}

/// Creating an event, then reading it, gives the record that was written.
pub proof fn law_read_after_create(s: EventStore, e: Event, record: Seq<u8>)
    ensures
        s.create_event(e, record).record(e.id) == Some(record),
{
}

/// Updating an event, then reading it, gives the new record.
pub proof fn law_read_after_update(s: EventStore, e: Event, record: Seq<u8>)
    ensures
        s.update_event(e, record).record(e.id) == Some(record),
{
}

/// A deleted event can no longer be read.
pub proof fn law_read_after_delete(s: EventStore, id: u64, stored: Event)
    ensures
        s.delete_event(id, stored).record(id) is None,
{
}

/// Creating an event files its id last among the ids of its organizer, and
/// last among those of its category when the category exists; other
/// organizers and categories keep their ids.
pub proof fn law_create_files_id(s: EventStore, e: Event, record: Seq<u8>)
    requires
        chunked(s),
    ensures
        s.create_event(e, record).organizer_ids(e.organizer) == s.organizer_ids(e.organizer).push(
            e.id,
        ),
        s.has_category(e.category@) ==> s.create_event(e, record).category_ids(e.category@)
            == s.category_ids(e.category@).push(e.id),
        forall|o: u64| o != e.organizer ==> s.create_event(e, record).organizer_ids(o) == s.organizer_ids(o),
        chunked(s.create_event(e, record)),
{
    let t = s.create_event(e, record);
    let ok = id_key(e.organizer);
    lemma_file_keeps_chunks(s.organizers, ok, e.id);
    lemma_ids_of_append(entry_or_empty(s.organizers, ok), e.id);
    let ck = category_key(e.category@);
    lemma_file_keeps_chunks(s.categories, ck, e.id);
    lemma_ids_of_append(entry_or_empty(s.categories, ck), e.id);
    assert forall|o: u64| o != e.organizer implies t.organizer_ids(o) == s.organizer_ids(o) by {
        crate::codec::lemma_id_bytes_injective(o, e.organizer);
        assert(entry_or_empty(t.organizers, id_key(o)) == entry_or_empty(s.organizers, id_key(o)));
    }
}

/// Deleting an event whose id comes first in its organizer's entry removes
/// exactly that id from the organizer's ids (likewise for the category).
pub proof fn law_delete_unfiles_first_id(s: EventStore, id: u64, stored: Event)
    requires
        s.organizers.contains_key(id_key(stored.organizer)),
        first_chunk(s.organizers[id_key(stored.organizer)], id_bytes(id)) == Some(0int),
    ensures
        s.delete_event(id, stored).organizer_ids(stored.organizer) == s.organizer_ids(
            stored.organizer,
        ).drop_first(),
{
    lemma_without_id_at_front(s.organizers[id_key(stored.organizer)], id);
}

/// Every operation keeps the indexes made of whole chunks.
pub proof fn law_operations_keep_chunks(
    s: EventStore,
    e: Event,
    record: Seq<u8>,
    id: u64,
    stored: Event,
    c: Seq<char>,
    into: Seq<char>,
    from: Seq<char>,
)
    requires
        chunked(s),
    ensures
        chunked(s.create_event(e, record)),
        chunked(s.update_event(e, record)),
        chunked(s.delete_event(id, stored)),
        chunked(s.create_category(c)),
        chunked(s.delete_category(c)),
        s.has_category(from) ==> chunked(s.merge_categories(into, from)),
{
    law_create_files_id(s, e, record);
    lemma_unfile_keeps_chunks(s.organizers, id_key(stored.organizer), id_key(id));
    lemma_unfile_keeps_chunks(s.categories, category_key(stored.category@), id_key(id));
    if !s.has_category(c) {
        assert(Seq::<u8>::empty().len() % 8 == 0);
    }
    if s.has_category(from) {
        let m = s.categories;
        let ki = category_key(into);
        let kf = category_key(from);
        assert((entry_or_empty(m, ki) + m[kf]).len() % 8 == 0);
    }
}

/// Creating a category twice is creating it once; afterwards it exists.
pub proof fn law_create_category_idempotent(s: EventStore, c: Seq<char>)
    ensures
        s.create_category(c).create_category(c) == s.create_category(c),
        s.create_category(c).has_category(c),
{
}

/// A category that was created and then deleted no longer exists; other
/// categories are left as they were.
pub proof fn law_delete_after_create_category(s: EventStore, c: Seq<char>, d: Seq<char>)
    requires
        d != c,
    ensures
        !s.create_category(c).delete_category(c).has_category(c),
        s.create_category(c).delete_category(c).has_category(d) == s.has_category(d),
{
    vstd::utf8::encode_utf8_decode_utf8(c);
    vstd::utf8::encode_utf8_decode_utf8(d);
}

/// Merging category `from` into another category `into` lists the ids of
/// `into`, then those of `from`, under `into`, and removes `from`.
pub proof fn law_merge_categories(s: EventStore, into: Seq<char>, from: Seq<char>)
    requires
        chunked(s),
        s.has_category(from),
        into != from,
    ensures
        s.merge_categories(into, from).category_ids(into) == s.category_ids(into) + s.category_ids(
            from,
        ),
        !s.merge_categories(into, from).has_category(from),
        s.merge_categories(into, from).has_category(into),
{
    vstd::utf8::encode_utf8_decode_utf8(into);
    vstd::utf8::encode_utf8_decode_utf8(from);
    let ki = category_key(into);
    let kf = category_key(from);
    assert(ki != kf);
    lemma_ids_of_concat(entry_or_empty(s.categories, ki), s.categories[kf]);
}

/// Deleting a newly created event removes its record again: the records
/// are as they were before the creation.
pub proof fn law_delete_undoes_create_record(s: EventStore, e: Event, record: Seq<u8>)
    requires
        !s.events.contains_key(id_key(e.id)),
    ensures
        s.create_event(e, record).delete_event(e.id, e).events == s.events,
{
    assert(s.create_event(e, record).delete_event(e.id, e).events =~= s.events);
}

/// A listing filtered by organizer, by category or by both, whose ids are
/// the selected ids each once and are read one by one, gives records of
/// selected events only, each event once, each with its own record; when
/// every read succeeds, it lists every selected event that has a record.
pub proof fn law_filtered_listing(
    s: EventStore,
    organizer: Option<u64>,
    category: Option<Seq<char>>,
    ids: Seq<u64>,
    reads: Seq<Option<Option<Seq<u8>>>>,
)
    requires
        ids.no_duplicates(),
        ids.to_set() == s.selected_ids(organizer, category),
        reads_agree(s.events, ids, reads),
    ensures
        kept_ids(ids, reads).len() == kept_records(reads).len(),
        kept_ids(ids, reads).no_duplicates(),
        forall|p: int|
            0 <= p < kept_ids(ids, reads).len() ==> s.selected_ids(organizer, category).contains(
                #[trigger] kept_ids(ids, reads)[p],
            ) && s.record(kept_ids(ids, reads)[p]) == Some(kept_records(reads)[p]),
        (forall|i: int| 0 <= i < reads.len() ==> #[trigger] reads[i] is Some) ==> forall|id: u64|
            #[trigger] kept_ids(ids, reads).contains(id) <==> s.selected_ids(organizer, category).contains(id)
                && s.record(id) is Some,
{
    lemma_kept_ids(s.events, ids, reads);
    let k = kept_ids(ids, reads);
    assert forall|p: int| 0 <= p < k.len() implies s.selected_ids(organizer, category).contains(
        #[trigger] k[p],
    ) && s.record(k[p]) == Some(kept_records(reads)[p]) by {
        assert(ids.contains(k[p]));
        assert(ids.to_set().contains(k[p]));
    }
    if forall|i: int| 0 <= i < reads.len() ==> #[trigger] reads[i] is Some {
        assert forall|id: u64| #[trigger] k.contains(id) <==> s.selected_ids(organizer, category).contains(id)
            && s.record(id) is Some by {
            if k.contains(id) {
                let p = choose|p: int| 0 <= p < k.len() && k[p] == id;
                assert(s.selected_ids(organizer, category).contains(k[p]));
            }
            if s.selected_ids(organizer, category).contains(id) && s.record(id) is Some {
                assert(ids.to_set().contains(id));
                assert(ids.contains(id));
                assert(s.events.contains_key(id_bytes(id)));
            }
        }
    }
}

/// Giving both an organizer and a category lists the events that the
/// organizer's listing and the category's listing have in common, when
/// every read of the three listings succeeds.
pub proof fn law_both_filters_intersect(
    s: EventStore,
    o: u64,
    c: Seq<char>,
    ids_both: Seq<u64>,
    reads_both: Seq<Option<Option<Seq<u8>>>>,
    ids_o: Seq<u64>,
    reads_o: Seq<Option<Option<Seq<u8>>>>,
    ids_c: Seq<u64>,
    reads_c: Seq<Option<Option<Seq<u8>>>>,
)
    requires
        ids_both.no_duplicates(),
        ids_both.to_set() == s.selected_ids(Some(o), Some(c)),
        reads_agree(s.events, ids_both, reads_both),
        forall|i: int| 0 <= i < reads_both.len() ==> #[trigger] reads_both[i] is Some,
        ids_o.no_duplicates(),
        ids_o.to_set() == s.selected_ids(Some(o), None),
        reads_agree(s.events, ids_o, reads_o),
        forall|i: int| 0 <= i < reads_o.len() ==> #[trigger] reads_o[i] is Some,
        ids_c.no_duplicates(),
        ids_c.to_set() == s.selected_ids(None, Some(c)),
        reads_agree(s.events, ids_c, reads_c),
        forall|i: int| 0 <= i < reads_c.len() ==> #[trigger] reads_c[i] is Some,
    ensures
        kept_ids(ids_both, reads_both).to_set() == kept_ids(ids_o, reads_o).to_set().intersect(
            kept_ids(ids_c, reads_c).to_set(),
        ),
{
    law_filtered_listing(s, Some(o), Some(c), ids_both, reads_both);
    law_filtered_listing(s, Some(o), None, ids_o, reads_o);
    law_filtered_listing(s, None, Some(c), ids_c, reads_c);
    assert forall|x: u64| kept_ids(ids_both, reads_both).to_set().contains(x) == kept_ids(
        ids_o,
        reads_o,
    ).to_set().intersect(kept_ids(ids_c, reads_c).to_set()).contains(x) by {
        assert(kept_ids(ids_both, reads_both).contains(x) == (s.selected_ids(Some(o), Some(c)).contains(x)
            && s.record(x) is Some));
        assert(kept_ids(ids_o, reads_o).contains(x) == (s.selected_ids(Some(o), None).contains(x)
            && s.record(x) is Some));
        assert(kept_ids(ids_c, reads_c).contains(x) == (s.selected_ids(None, Some(c)).contains(x)
            && s.record(x) is Some));
    }
    assert(kept_ids(ids_both, reads_both).to_set() =~= kept_ids(ids_o, reads_o).to_set().intersect(
        kept_ids(ids_c, reads_c).to_set(),
    ));
}

/// After `create_event`, a listing by the event's organizer, by its
/// category, or by both, with every read succeeding, lists the new record.
pub proof fn law_listed_after_create_event(
    s: EventStore,
    e: Event,
    record: Seq<u8>,
    organizer: Option<u64>,
    category: Option<Seq<char>>,
    ids: Seq<u64>,
    reads: Seq<Option<Option<Seq<u8>>>>,
)
    requires
        chunked(s),
        s.has_category(e.category@),
        organizer is Some || category is Some,
        organizer matches Some(x) ==> x == e.organizer,
        category matches Some(y) ==> y == e.category@,
        ids.no_duplicates(),
        ids.to_set() == s.create_event(e, record).selected_ids(organizer, category),
        reads_agree(s.create_event(e, record).events, ids, reads),
        forall|i: int| 0 <= i < reads.len() ==> #[trigger] reads[i] is Some,
    ensures
        kept_records(reads).contains(record),
{
    let t = s.create_event(e, record);
    law_create_files_id(s, e, record);
    assert(t.organizer_ids(e.organizer).last() == e.id);
    assert(t.organizer_ids(e.organizer).contains(e.id));
    assert(t.category_ids(e.category@).last() == e.id);
    assert(t.category_ids(e.category@).contains(e.id));
    assert(t.selected_ids(organizer, category).contains(e.id));
    law_filtered_listing(t, organizer, category, ids, reads);
    let k = kept_ids(ids, reads);
    assert(k.contains(e.id));
    let p = choose|p: int| 0 <= p < k.len() && k[p] == e.id;
    assert(t.record(k[p]) == Some(kept_records(reads)[p]));
    assert(kept_records(reads)[p] == record);
}

/// After `create_event`, the listing of every record, with every entry read
/// without error, lists the new record.
pub proof fn law_all_listed_after_create_event(
    s: EventStore,
    e: Event,
    record: Seq<u8>,
    es: Seq<Result<(Vec<u8>, Vec<u8>), sled::Error>>,
)
    requires
        entries_of(s.create_event(e, record).events, es),
        all_read(es),
    ensures
        entry_values(es).contains(record),
{
    let t = s.create_event(e, record);
    law_entries_list_every_key(t.events, es);
    assert(t.events.contains_key(id_key(e.id)));
    let p = choose|p: int| 0 <= p < ok_pairs(es).len() && #[trigger] ok_pairs(es)[p].0@ == id_key(e.id);
    assert(entry_values(es)[p] == record);
}

/// After `delete_event`, no listing holds the deleted event: the listing of
/// every record has no entry under its key, and a filtered listing keeps no
/// record for its id.
pub proof fn law_not_listed_after_delete(
    s: EventStore,
    id: u64,
    stored: Event,
    es: Seq<Result<(Vec<u8>, Vec<u8>), sled::Error>>,
    ids: Seq<u64>,
    reads: Seq<Option<Option<Seq<u8>>>>,
)
    requires
        entries_of(s.delete_event(id, stored).events, es),
        reads_agree(s.delete_event(id, stored).events, ids, reads),
    ensures
        forall|p: int| 0 <= p < ok_pairs(es).len() ==> #[trigger] ok_pairs(es)[p].0@ != id_key(id),
        !kept_ids(ids, reads).contains(id),
{
    let t = s.delete_event(id, stored);
    lemma_ok_pairs_sound(t.events, es);
    assert forall|p: int| 0 <= p < ok_pairs(es).len() implies #[trigger] ok_pairs(es)[p].0@ != id_key(id) by {
        assert(t.events.contains_key(ok_pairs(es)[p].0@));
    }
    lemma_kept_ids(t.events, ids, reads);
    if kept_ids(ids, reads).contains(id) {
        let p = choose|p: int| 0 <= p < kept_ids(ids, reads).len() && kept_ids(ids, reads)[p] == id;
        assert(t.events.get(id_bytes(kept_ids(ids, reads)[p])) is Some);
    }
}

/// After `merge_categories(into, from)`, the listing by `into` selects the
/// events of both categories, the listing by `from` selects none, and the
/// records stay.
pub proof fn law_listing_after_merge(s: EventStore, into: Seq<char>, from: Seq<char>)
    requires
        chunked(s),
        s.has_category(from),
        into != from,
    ensures
        s.merge_categories(into, from).selected_ids(None, Some(into)) == s.selected_ids(None, Some(into)).union(
            s.selected_ids(None, Some(from)),
        ),
        s.merge_categories(into, from).selected_ids(None, Some(from)) == Set::<u64>::empty(),
        s.merge_categories(into, from).events == s.events,
{
    law_merge_categories(s, into, from);
    let t = s.merge_categories(into, from);
    let a = s.category_ids(into);
    let b = s.category_ids(from);
    assert forall|x: u64| (a + b).contains(x) == (a.contains(x) || b.contains(x)) by {
        if (a + b).contains(x) {
            let j = choose|j: int| 0 <= j < (a + b).len() && (a + b)[j] == x;
            if j >= a.len() {
                assert(b[j - a.len()] == x);
            }
        }
        if a.contains(x) {
            let j = choose|j: int| 0 <= j < a.len() && a[j] == x;
            assert((a + b)[j] == x);
        }
        if b.contains(x) {
            let j = choose|j: int| 0 <= j < b.len() && b[j] == x;
            assert((a + b)[a.len() + j] == x);
        }
    }
    assert(t.selected_ids(None, Some(into)) =~= s.selected_ids(None, Some(into)).union(
        s.selected_ids(None, Some(from)),
    ));
    assert(!t.categories.contains_key(category_key(from)));
    assert(ids_of(Seq::<u8>::empty()) =~= Seq::<u64>::empty());
    assert(t.selected_ids(None, Some(from)) =~= Set::<u64>::empty());
}

/// After `reset_all`, the store holds nothing: every listing is empty.
pub proof fn law_listing_after_reset(
    s: EventStore,
    organizer: Option<u64>,
    category: Option<Seq<char>>,
    es: Seq<Result<(Vec<u8>, Vec<u8>), sled::Error>>,
)
    requires
        s.events == Map::<Seq<u8>, Seq<u8>>::empty(),
        s.organizers == Map::<Seq<u8>, Seq<u8>>::empty(),
        s.categories == Map::<Seq<u8>, Seq<u8>>::empty(),
        entries_of(s.events, es),
    ensures
        entry_values(es).len() == 0,
        s.selected_ids(organizer, category) == Set::<u64>::empty(),
{
    lemma_ok_pairs_sound(s.events, es);
    if ok_pairs(es).len() > 0 {
        assert(s.events.contains_key(ok_pairs(es)[0].0@));
    }
    assert(ids_of(Seq::<u8>::empty()) =~= Seq::<u64>::empty());
    assert(s.selected_ids(organizer, category) =~= Set::<u64>::empty());
}

/// Ids handed out by the database's counter are never handed out again:
/// when `generate_id` gives `first` in a state that has handed out
/// `issued_before`, the ids handed out only grow up to a later call, and that
/// call gives `second` in a state that has handed out `issued_later`, the two
/// ids differ.
pub proof fn law_generated_ids_differ(
    issued_before: Set<u64>,
    first: u64,
    issued_after: Set<u64>,
    issued_later: Set<u64>,
    second: u64,
)
    requires
        !issued_before.contains(first),
        issued_after.contains(first),
        issued_after.subset_of(issued_later),
        !issued_later.contains(second),
    ensures
        first != second,
{
}

/// The category names that entries give are the decoded keys of the
/// entries whose key is valid UTF-8.
proof fn lemma_category_names(ps: Seq<(Vec<u8>, Vec<u8>)>)
    ensures
        forall|n: Seq<char>|
            #[trigger] category_names(ps).contains(n) <==> exists|p: int|
                0 <= p < ps.len() && valid_utf8(#[trigger] ps[p].0@) && decode_utf8(ps[p].0@) == n,
    decreases ps.len(),
{
    if ps.len() > 0 {
        let d = ps.drop_last();
        lemma_category_names(d);
        let rest = category_names(d);
        let names = category_names(ps);
        assert forall|n: Seq<char>| #[trigger] names.contains(n) <==> exists|p: int|
            0 <= p < ps.len() && valid_utf8(#[trigger] ps[p].0@) && decode_utf8(ps[p].0@) == n by {
            if names.contains(n) {
                let j = choose|j: int| 0 <= j < names.len() && names[j] == n;
                if j < rest.len() {
                    assert(names[j] == rest[j]);
                    assert(rest.contains(n));
                    let p = choose|p: int| 0 <= p < d.len() && valid_utf8(#[trigger] d[p].0@) && decode_utf8(d[p].0@) == n;
                    assert(ps[p] == d[p]);
                } else {
                    assert(ps[ps.len() - 1] == ps.last());
                }
            }
            if exists|p: int| 0 <= p < ps.len() && valid_utf8(#[trigger] ps[p].0@) && decode_utf8(ps[p].0@) == n {
                let p = choose|p: int| 0 <= p < ps.len() && valid_utf8(#[trigger] ps[p].0@) && decode_utf8(ps[p].0@) == n;
                if p < d.len() {
                    assert(d[p] == ps[p]);
                    assert(rest.contains(n));
                    let j = choose|j: int| 0 <= j < rest.len() && rest[j] == n;
                    assert(names[j] == n);
                } else {
                    assert(ps.last() == ps[p]);
                    assert(names[names.len() - 1] == n);
                }
            }
        }
    }
}

/// When every entry of the category tree is read without error, the
/// category listing names every category that exists.
pub proof fn law_every_category_listed(s: EventStore, es: Seq<Result<(Vec<u8>, Vec<u8>), sled::Error>>, c: Seq<char>)
    requires
        entries_of(s.categories, es),
        all_read(es),
        s.has_category(c),
    ensures
        category_names(ok_pairs(es)).contains(c),
{
    law_entries_list_every_key(s.categories, es);
    lemma_category_names(ok_pairs(es));
    let p = choose|p: int| 0 <= p < ok_pairs(es).len() && #[trigger] ok_pairs(es)[p].0@ == category_key(c);
    encode_utf8_valid_utf8(c);
    encode_utf8_decode_utf8(c);
    assert(valid_utf8(ok_pairs(es)[p].0@) && decode_utf8(ok_pairs(es)[p].0@) == c);
}

/// After `delete_category(c)`, the category listing does not name `c`.
pub proof fn law_category_not_listed_after_delete(
    s: EventStore,
    c: Seq<char>,
    es: Seq<Result<(Vec<u8>, Vec<u8>), sled::Error>>,
)
    requires
        entries_of(s.delete_category(c).categories, es),
    ensures
        !category_names(ok_pairs(es)).contains(c),
{
    let t = s.delete_category(c);
    lemma_ok_pairs_sound(t.categories, es);
    lemma_category_names(ok_pairs(es));
    if category_names(ok_pairs(es)).contains(c) {
        let p = choose|p: int| 0 <= p < ok_pairs(es).len() && valid_utf8(#[trigger] ok_pairs(es)[p].0@)
            && decode_utf8(ok_pairs(es)[p].0@) == c;
        decode_utf8_encode_utf8(ok_pairs(es)[p].0@);
        assert(t.categories.contains_key(ok_pairs(es)[p].0@));
    }
}

/// Sorting keeps the events, and, when no two of them share an id, no two
/// of the sorted events do.
proof fn lemma_sorted_ids_distinct(key: Option<EventSortKey>, events: Seq<Event>)
    requires
        forall|j: int, k: int| 0 <= j < k < events.len() ==> #[trigger] events[j].id != #[trigger] events[k].id,
    ensures
        forall|e: Event| #[trigger] sorted_by(key, events).contains(e) <==> events.contains(e),
        forall|j: int, k: int|
            0 <= j < k < sorted_by(key, events).len() ==> #[trigger] sorted_by(key, events)[j].id
                != #[trigger] sorted_by(key, events)[k].id,
{
    broadcast use vstd::seq_lib::group_to_multiset_ensures;

    let t = sorted_by(key, events);
    law_sorted_by_is_permutation(key, events);
    assert(events.no_duplicates()) by {
        assert forall|j: int, k: int| 0 <= j < events.len() && 0 <= k < events.len() && j != k implies events[j] != events[k] by {
            if j < k {
                assert(events[j].id != events[k].id);
            } else {
                assert(events[k].id != events[j].id);
            }
        }
    }
    events.lemma_multiset_has_no_duplicates();
    assert forall|e: Event| #[trigger] t.contains(e) <==> events.contains(e) by {
        assert(t.contains(e) <==> t.to_multiset().count(e) > 0);
        assert(events.contains(e) <==> events.to_multiset().count(e) > 0);
    }
    t.lemma_multiset_has_no_duplicates_conv();
    assert forall|j: int, k: int| 0 <= j < k < t.len() implies #[trigger] t[j].id != #[trigger] t[k].id by {
        if t[j].id == t[k].id {
            assert(t.contains(t[j]) && t.contains(t[k]));
            let a = choose|a: int| 0 <= a < events.len() && events[a] == t[j];
            let b = choose|b: int| 0 <= b < events.len() && events[b] == t[k];
            if a < b {
                assert(events[a].id != events[b].id);
            } else if b < a {
                assert(events[b].id != events[a].id);
            }
            assert(t[j] == t[k]);
        }
    }
}

/// `get_events` with an organizer, a category or both: when the records
/// that `event_records` keeps (read for the selected ids, each once) decode
/// into `events`, each event carrying the id it is stored under, sorting
/// them gives a list sorted by the key that holds the same events, no id
/// twice, only selected events that are stored, and, when every read
/// succeeds, every selected event that is stored.
pub proof fn law_filtered_get_events(
    s: EventStore,
    organizer: Option<u64>,
    category: Option<Seq<char>>,
    ids: Seq<u64>,
    reads: Seq<Option<Option<Seq<u8>>>>,
    events: Seq<Event>,
    key: Option<EventSortKey>,
)
    requires
        ids.no_duplicates(),
        ids.to_set() == s.selected_ids(organizer, category),
        reads_agree(s.events, ids, reads),
        events.len() == kept_records(reads).len(),
        forall|p: int| 0 <= p < events.len() ==> #[trigger] events[p].id == kept_ids(ids, reads)[p],
    ensures
        is_sorted_by(key, sorted_by(key, events)),
        sorted_by(key, events).to_multiset() == events.to_multiset(),
        forall|j: int, k: int|
            0 <= j < k < sorted_by(key, events).len() ==> #[trigger] sorted_by(key, events)[j].id
                != #[trigger] sorted_by(key, events)[k].id,
        forall|j: int|
            0 <= j < sorted_by(key, events).len() ==> s.selected_ids(organizer, category).contains(
                #[trigger] sorted_by(key, events)[j].id,
            ) && s.record(sorted_by(key, events)[j].id) is Some,
        (forall|i: int| 0 <= i < reads.len() ==> #[trigger] reads[i] is Some) ==> forall|id: u64|
            s.selected_ids(organizer, category).contains(id) && s.record(id) is Some ==> exists|j: int|
                0 <= j < sorted_by(key, events).len() && #[trigger] sorted_by(key, events)[j].id == id,
{
    let t = sorted_by(key, events);
    let k = kept_ids(ids, reads);
    law_filtered_listing(s, organizer, category, ids, reads);
    law_sorted_by_is_sorted(key, events);
    law_sorted_by_is_permutation(key, events);
    assert forall|j: int, l: int| 0 <= j < l < events.len() implies #[trigger] events[j].id
        != #[trigger] events[l].id by {
        assert(k[j] != k[l]);
    }
    lemma_sorted_ids_distinct(key, events);
    assert forall|j: int| 0 <= j < t.len() implies s.selected_ids(organizer, category).contains(
        #[trigger] t[j].id,
    ) && s.record(t[j].id) is Some by {
        assert(t.contains(t[j]));
        let p = choose|p: int| 0 <= p < events.len() && events[p] == t[j];
        assert(events[p].id == k[p]);
    }
    if forall|i: int| 0 <= i < reads.len() ==> #[trigger] reads[i] is Some {
        assert forall|id: u64| s.selected_ids(organizer, category).contains(id) && s.record(id) is Some
            implies exists|j: int| 0 <= j < t.len() && #[trigger] t[j].id == id by {
            assert(k.contains(id));
            let p = choose|p: int| 0 <= p < k.len() && k[p] == id;
            assert(events[p].id == id);
            assert(events.contains(events[p]));
            assert(t.contains(events[p]));
            let j = choose|j: int| 0 <= j < t.len() && t[j] == events[p];
            assert(t[j].id == id);
        }
    }
}

/// `get_events` with neither an organizer nor a category: when the records
/// of the entries read without error decode into `events`, each event
/// carrying the id it is stored under, sorting them gives a list sorted by
/// the key that holds the same events, no id twice, only stored events,
/// and, when every entry is read without error, every stored event.
pub proof fn law_all_get_events(
    s: EventStore,
    es: Seq<Result<(Vec<u8>, Vec<u8>), sled::Error>>,
    events: Seq<Event>,
    key: Option<EventSortKey>,
)
    requires
        entries_of(s.events, es),
        events.len() == ok_pairs(es).len(),
        forall|p: int| 0 <= p < events.len() ==> #[trigger] id_key(events[p].id) == ok_pairs(es)[p].0@,
    ensures
        is_sorted_by(key, sorted_by(key, events)),
        sorted_by(key, events).to_multiset() == events.to_multiset(),
        forall|j: int, k: int|
            0 <= j < k < sorted_by(key, events).len() ==> #[trigger] sorted_by(key, events)[j].id
                != #[trigger] sorted_by(key, events)[k].id,
        forall|j: int| 0 <= j < sorted_by(key, events).len() ==> s.record(#[trigger] sorted_by(key, events)[j].id) is Some,
        all_read(es) ==> forall|id: u64|
            s.record(id) is Some ==> exists|j: int|
                0 <= j < sorted_by(key, events).len() && #[trigger] sorted_by(key, events)[j].id == id,
{
    let t = sorted_by(key, events);
    let ps = ok_pairs(es);
    law_sorted_by_is_sorted(key, events);
    law_sorted_by_is_permutation(key, events);
    lemma_ok_pairs_sound(s.events, es);
    lemma_ok_pairs_ascending(s.events, es);
    assert forall|j: int, l: int| 0 <= j < l < events.len() implies #[trigger] events[j].id
        != #[trigger] events[l].id by {
        assert(bytes_lt(ps[j].0@, ps[l].0@));
        lemma_bytes_lt_irreflexive(ps[j].0@);
        assert(id_key(events[j].id) == ps[j].0@);
        assert(id_key(events[l].id) == ps[l].0@);
    }
    lemma_sorted_ids_distinct(key, events);
    assert forall|j: int| 0 <= j < t.len() implies s.record(#[trigger] t[j].id) is Some by {
        assert(t.contains(t[j]));
        let p = choose|p: int| 0 <= p < events.len() && events[p] == t[j];
        assert(id_key(events[p].id) == ps[p].0@);
        assert(s.events.contains_key(ps[p].0@));
    }
    if all_read(es) {
        law_entries_list_every_key(s.events, es);
        assert forall|id: u64| s.record(id) is Some implies exists|j: int|
            0 <= j < t.len() && #[trigger] t[j].id == id by {
            assert(s.events.contains_key(id_key(id)));
            let p = choose|p: int| 0 <= p < ps.len() && #[trigger] ps[p].0@ == id_key(id);
            assert(id_key(events[p].id) == id_key(id));
            lemma_id_bytes_injective(events[p].id, id);
            assert(events.contains(events[p]));
            assert(t.contains(events[p]));
            let j = choose|j: int| 0 <= j < t.len() && t[j] == events[p];
            assert(t[j].id == id);
        }
    }
}

/// Creating a category that exists already changes nothing, so the events
/// filed under it stay; creating one that does not exist adds it with no
/// events and leaves the records, the organizers and the other categories
/// as they were.
pub proof fn law_create_category_keeps_existing(s: EventStore, c: Seq<char>, d: Seq<char>)
    requires
        d != c,
    ensures
        s.has_category(c) ==> s.create_category(c) == s,
        s.has_category(c) ==> s.create_category(c).category_ids(c) == s.category_ids(c),
        s.create_category(c).has_category(c),
        !s.has_category(c) ==> s.create_category(c).category_ids(c) == Seq::<u64>::empty(),
        s.create_category(c).events == s.events,
        s.create_category(c).organizers == s.organizers,
        s.create_category(c).has_category(d) == s.has_category(d),
        s.create_category(c).category_ids(d) == s.category_ids(d),
{
    encode_utf8_decode_utf8(c);
    encode_utf8_decode_utf8(d);
    assert(ids_of(Seq::<u8>::empty()) =~= Seq::<u64>::empty());
}

/// Updating an event replaces only its record: every other record, every
/// organizer's ids and every category's ids stay as they were.
pub proof fn law_update_event_keeps_indexes(s: EventStore, e: Event, record: Seq<u8>, other: u64)
    requires
        other != e.id,
    ensures
        s.update_event(e, record).organizers == s.organizers,
        s.update_event(e, record).categories == s.categories,
        forall|o: u64| #[trigger] s.update_event(e, record).organizer_ids(o) == s.organizer_ids(o),
        forall|c: Seq<char>| #[trigger] s.update_event(e, record).category_ids(c) == s.category_ids(c),
        forall|c: Seq<char>| #[trigger] s.update_event(e, record).has_category(c) == s.has_category(c),
        s.update_event(e, record).record(e.id) == Some(record),
        s.update_event(e, record).record(other) == s.record(other),
{
    lemma_id_bytes_injective(other, e.id);
}

} // verus!
