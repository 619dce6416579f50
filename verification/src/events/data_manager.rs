//! The event store: three `sled` trees. `events` maps the big-endian bytes of
//! an event id to the event's serialized record; `organizers` maps the bytes
//! of an organizer id to the ids of that organizer's events; `categories`
//! maps the UTF-8 bytes of a category name to the ids of its events.

pub use crate::codec::merge;
use crate::codec::{append_bytes, bytes_lt, id_bytes, id_to_bytes, ids_of, ids_to_vec, opt_vec_bytes};
use crate::index::{entry_or_empty, file, file_id, unfile, unfile_id};
use crate::error::{store_result, ManagerError};
use crate::events::laws::{chunked, law_operations_keep_chunks};
use crate::events::types::{Category, Event};
use crate::store::{
    drop_tree, entry_key, issued_ids, db_path_of, tree_in_table, tree_live, tree_name, open_db, open_tree, set_concat_merge, tree_contains, tree_entries,
    tree_get, tree_insert, tree_remove, tree_view, merges_by_concat,
    string_from_utf8, ok_entries, entries_of, entry_values, ok_pairs, read_ids, kept_values,
    read_outcome, reads_agree, records_read,
};
use std::collections::HashSet;
use vstd::prelude::*;
use vstd::std_specs::hash::spec_hash_keys_iter;
use vstd::std_specs::iter::IteratorSpec;
use vstd::utf8::{decode_utf8, decode_utf8_encode_utf8, encode_utf8, valid_utf8};

verus! {

/// Name of the tree of event records.
pub const EVENTS_TREE: &'static str = "events";

/// Name of the tree of event ids by organizer.
pub const ORGANIZERS_TREE: &'static str = "organizers";

/// Name of the tree of event ids by category.
pub const CATEGORIES_TREE: &'static str = "categories";

/// The three tree names differ.
proof fn lemma_tree_names_differ()
    ensures
        EVENTS_TREE@ != ORGANIZERS_TREE@,
        EVENTS_TREE@ != CATEGORIES_TREE@,
        ORGANIZERS_TREE@ != CATEGORIES_TREE@,
{
    reveal_strlit("events");
    reveal_strlit("organizers");
    reveal_strlit("categories");
    assert("events"@.len() == 6 && "organizers"@.len() == 10 && "categories"@.len() == 10);
    assert("organizers"@[0] != "categories"@[0]);
}

/// The key of an id: its big-endian bytes.
pub open spec fn id_key(id: u64) -> Seq<u8> {
    id_bytes(id)
}

/// The key of a category: the UTF-8 bytes of its name.
pub open spec fn category_key(c: Seq<char>) -> Seq<u8> {
    encode_utf8(c)
}

/// What the event store holds.
pub struct EventStore {
    pub events: Map<Seq<u8>, Seq<u8>>,
    pub organizers: Map<Seq<u8>, Seq<u8>>,
    pub categories: Map<Seq<u8>, Seq<u8>>,
    /// The ids that the database's id counter has handed out.
    pub issued: Set<u64>,
}

impl EventStore {
    /// The record stored for event `id`.
    pub open spec fn record(self, id: u64) -> Option<Seq<u8>> {
        self.events.get(id_key(id))
    }

    /// Whether category `c` exists.
    pub open spec fn has_category(self, c: Seq<char>) -> bool {
        self.categories.contains_key(category_key(c))
    }

    /// The ids filed under organizer `o`.
    pub open spec fn organizer_ids(self, o: u64) -> Seq<u64> {
        ids_of(entry_or_empty(self.organizers, id_key(o)))
    }

    /// The ids filed under category `c`.
    pub open spec fn category_ids(self, c: Seq<char>) -> Seq<u64> {
        ids_of(entry_or_empty(self.categories, category_key(c)))
    }

    /// The store after `create_event`: the record is stored under the event's
    /// id, the id is filed under the organizer, and under the category when
    /// the category exists.
    pub open spec fn create_event(self, e: Event, record: Seq<u8>) -> EventStore {
        let stored = EventStore {
            events: self.events.insert(id_key(e.id), record),
            organizers: file_id(self.organizers, id_key(e.organizer), e.id),
            categories: self.categories,
            issued: self.issued,
        };
        if self.has_category(e.category@) {
            EventStore {
                categories: file_id(self.categories, category_key(e.category@), e.id),
                ..stored
            }
        } else {
            stored
        }
    }

    /// The store after `update_event`: the record under the event's id is
    /// replaced; the indexes stay.
    pub open spec fn update_event(self, e: Event, record: Seq<u8>) -> EventStore {
        EventStore { events: self.events.insert(id_key(e.id), record), ..self }
    }

    /// The store after `delete_event` of event `id`, whose stored value is
    /// `stored`: the record is gone and the id is removed from the entries of
    /// the organizer and of the category of `stored`.
    pub open spec fn delete_event(self, id: u64, stored: Event) -> EventStore {
        EventStore {
            events: self.events.remove(id_key(id)),
            organizers: unfile_id(self.organizers, id_key(stored.organizer), id_key(id)),
            categories: unfile_id(self.categories, category_key(stored.category@), id_key(id)),
            issued: self.issued,
        }
    }

    /// The store after `create_category`: an empty entry is added when the
    /// category does not exist yet.
    pub open spec fn create_category(self, c: Seq<char>) -> EventStore {
        if self.has_category(c) {
            self
        } else {
            EventStore { categories: self.categories.insert(category_key(c), Seq::empty()), ..self }
        }
    }

    /// The store after `delete_category`.
    pub open spec fn delete_category(self, c: Seq<char>) -> EventStore {
        EventStore { categories: self.categories.remove(category_key(c)), ..self }
    }

    /// The store after `merge_categories(into, from)`: the entry of `from` is
    /// appended to the entry of `into`, then `from` is deleted.
    pub open spec fn merge_categories(self, into: Seq<char>, from: Seq<char>) -> EventStore {
        EventStore {
            categories: self.categories.insert(
                category_key(into),
                entry_or_empty(self.categories, category_key(into))
                    + self.categories[category_key(from)],
            ).remove(category_key(from)),
            ..self
        }
    }

    /// The ids that a listing filtered by organizer and category selects:
    /// those filed under both when both are given, else under the one given.
    pub open spec fn selected_ids(self, organizer: Option<u64>, category: Option<Seq<char>>) -> Set<
        u64,
    > {
        match (organizer, category) {
            (Some(o), Some(c)) => self.organizer_ids(o).to_set().intersect(
                self.category_ids(c).to_set(),
            ),
            (Some(o), None) => self.organizer_ids(o).to_set(),
            (None, Some(c)) => self.category_ids(c).to_set(),
            (None, None) => Set::empty(),
        }
    }
}

/// The category name that an optional category reference gives.
pub open spec fn opt_category(c: Option<&Category>) -> Option<Seq<char>> {
    match c {
        Some(s) => Some(s@),
        None => None,
    }
}

/// The ids that a listing selects, from the organizer's and the category's
/// id lists, each id once.
pub open spec fn selection(organizer: Option<Seq<u64>>, category: Option<Seq<u64>>) -> Set<u64> {
    match (organizer, category) {
        (Some(o), Some(c)) => o.to_set().intersect(c.to_set()),
        (Some(o), None) => o.to_set(),
        (None, Some(c)) => c.to_set(),
        (None, None) => Set::empty(),
    }
}

/// The id lists that optional vectors hold.
pub open spec fn opt_ids(v: Option<Vec<u64>>) -> Option<Seq<u64>> {
    match v {
        Some(s) => Some(s@),
        None => None,
    }
}

/// `vals` are the values of `m` under `keys`, and the keys ascend.
pub open spec fn listed_in_key_order(
    m: Map<Seq<u8>, Seq<u8>>,
    vals: Seq<Vec<u8>>,
    keys: Seq<Seq<u8>>,
) -> bool {
    &&& keys.len() == vals.len()
    &&& forall|p: int|
        0 <= p < keys.len() ==> m.contains_key(#[trigger] keys[p]) && m[keys[p]] == vals[p]@
    &&& forall|p: int, q: int| 0 <= p < q < keys.len() ==> bytes_lt(keys[p], keys[q])
}

/// The category names that entries give: the decoded key of each entry
/// whose key is valid UTF-8, in order.
pub open spec fn category_names(ps: Seq<(Vec<u8>, Vec<u8>)>) -> Seq<Seq<char>>
    decreases ps.len(),
{
    if ps.len() == 0 {
        Seq::empty()
    } else {
        let rest = category_names(ps.drop_last());
        if valid_utf8(ps.last().0@) {
            rest.push(decode_utf8(ps.last().0@))
        } else {
            rest
        }
    }
}

/// The event manager: the database and its three trees.
pub struct EventManager {
    db: sled::Db,
    events: sled::Tree,
    organizers: sled::Tree,
    categories: sled::Tree,
    /// Whether the three handles are live: false from the start of a reset
    /// until it has reopened the trees.
    open: bool,
}

impl View for EventManager {
    type V = EventStore;

    closed spec fn view(&self) -> EventStore {
        EventStore {
            events: tree_view(self.events),
            organizers: tree_view(self.organizers),
            categories: tree_view(self.categories),
            issued: issued_ids(self.db),
        }
    }
}

/// The ids of `v`, as a set.
fn id_set(v: &Vec<u64>) -> (r: HashSet<u64>)
    ensures
        r@ == v@.to_set(),
{
    broadcast use vstd::std_specs::hash::group_hash_axioms;
    let mut s: HashSet<u64> = HashSet::new();
    let mut i: usize = 0;
    while i < v.len()
        invariant
            i <= v@.len(),
            s@ == v@.take(i as int).to_set(),
        decreases v@.len() - i,
    {
        s.insert(v[i]);
        proof {
            let t0 = v@.take(i as int);
            let t1 = v@.take(i + 1);
            assert forall|x: u64| s@.contains(x) == t1.to_set().contains(x) by {
                if x != v@[i as int] {
                    if t1.contains(x) {
                        let k = choose|k: int| 0 <= k < t1.len() && t1[k] == x;
                        assert(t0[k] == x);
                    }
                    if t0.contains(x) {
                        let k = choose|k: int| 0 <= k < t0.len() && t0[k] == x;
                        assert(t1[k] == x);
                    }
                } else {
                    assert(t1[i as int] == x);
                }
            }
            assert(s@ =~= t1.to_set());
        }
        i = i + 1;
    }
    assert(v@.take(v@.len() as int) =~= v@);
    s
}

/// The ids in both `a` and `b`.
fn set_intersection(a: &HashSet<u64>, b: &HashSet<u64>) -> (r: HashSet<u64>)
    ensures
        r@ == a@.intersect(b@),
{
    broadcast use vstd::std_specs::hash::group_hash_axioms;
    let ghost ks = spec_hash_keys_iter(a).remaining().unref();
    let mut s: HashSet<u64> = HashSet::new();
    for x in it: a.iter()
        invariant
            ks == spec_hash_keys_iter(a).remaining().unref(),
            ks.to_set() == a@,
            it.seq().unref() == ks,
            s@ == ks.take(it.index()).to_set().intersect(b@),
    {
        let ghost i = it.index();
        if b.contains(x) {
            s.insert(*x);
        }
        proof {
            let t0 = ks.take(i);
            let t1 = ks.take(i + 1);
            assert forall|y: u64| s@.contains(y) == t1.to_set().intersect(b@).contains(y) by {
                if y != ks[i] {
                    if t1.contains(y) {
                        let k = choose|k: int| 0 <= k < t1.len() && t1[k] == y;
                        assert(t0[k] == y);
                    }
                    if t0.contains(y) {
                        let k = choose|k: int| 0 <= k < t0.len() && t0[k] == y;
                        assert(t1[k] == y);
                    }
                } else {
                    assert(t1[i] == y);
                }
            }
            assert(s@ =~= t1.to_set().intersect(b@));
        }
    }
    assert(ks.take(ks.len() as int) =~= ks);
    assert(s@ =~= a@.intersect(b@));
    s
}

/// The ids of `s`, each once, in the order in which the set hands them out.
fn set_ids(s: &HashSet<u64>) -> (r: Vec<u64>)
    ensures
        r@.no_duplicates(),
        r@.to_set() == s@,
{
    broadcast use vstd::std_specs::hash::group_hash_axioms;
    let ghost ks = spec_hash_keys_iter(s).remaining().unref();
    let mut out: Vec<u64> = Vec::new();
    for x in it: s.iter()
        invariant
            ks == spec_hash_keys_iter(s).remaining().unref(),
            it.seq().unref() == ks,
            out@ == ks.take(it.index()),
    {
        out.push(*x);
        assert(out@ =~= ks.take(it.index() + 1));
    }
    assert(out@ =~= ks);
    out
}

/// The ids that a listing selects: with both lists, the ids in both; with
/// one, the ids in it; with none, no ids. Each id comes once, in the order
/// in which the set of selected ids hands them out.
pub fn select_ids(organizer: Option<Vec<u64>>, category: Option<Vec<u64>>) -> (r: Vec<u64>)
    ensures
        r@.no_duplicates(),
        r@.to_set() == selection(opt_ids(organizer), opt_ids(category)),
{
    broadcast use vstd::std_specs::hash::group_hash_axioms;
    let ghost want = selection(opt_ids(organizer), opt_ids(category));
    let o = match &organizer {
        Some(v) => Some(id_set(v)),
        None => None,
    };
    let c = match &category {
        Some(v) => Some(id_set(v)),
        None => None,
    };
    let selected: HashSet<u64> = match (c, o) {
        (Some(c), Some(o)) => {
            let both = set_intersection(&c, &o);
            assert(both@ =~= want);
            both
        },
        (None, Some(o)) => o,
        (Some(c), None) => c,
        (None, None) => {
            let none: HashSet<u64> = HashSet::new();
            assert(none@ =~= want);
            none
        },
    };
    set_ids(&selected)
}

impl EventManager {
    /// Every tree has `codec::merge` as its merge operator, each handle is on
    /// the tree of its name, and, while the manager is open, each handle is
    /// live and the database's table of open trees holds the three names.
    pub closed spec fn wf(&self) -> bool {
        &&& merges_by_concat(self.events)
        &&& merges_by_concat(self.organizers)
        &&& merges_by_concat(self.categories)
        &&& self.trees_named()
        &&& self.open ==> tree_live(self.db, self.events) && tree_live(self.db, self.organizers)
            && tree_live(self.db, self.categories)
        &&& self.open ==> tree_in_table(self.db, EVENTS_TREE@) && tree_in_table(self.db, ORGANIZERS_TREE@)
            && tree_in_table(self.db, CATEGORIES_TREE@)
    }

    /// The handles are on the trees called `events`, `organizers` and
    /// `categories`.
    pub closed spec fn trees_named(&self) -> bool {
        &&& tree_name(self.events) == EVENTS_TREE@
        &&& tree_name(self.organizers) == ORGANIZERS_TREE@
        &&& tree_name(self.categories) == CATEGORIES_TREE@
    }

    /// The path that the manager's database was opened under.
    pub closed spec fn path(&self) -> Seq<char> {
        db_path_of(self.db)
    }

    /// Whether the manager's trees are open: true from `new` on, false after
    /// a reset that failed part-way, until a reset succeeds.
    pub closed spec fn is_open(&self) -> bool {
        self.open
    }

    /// Opens the database under `db_path` and its three trees, and installs
    /// the merge operator on each.
    pub fn new(db_path: &String) -> (r: Result<EventManager, ManagerError>)
        ensures
            r matches Ok(m) ==> m.wf() && m.is_open() && m.trees_named() && m.path() == db_path@,
            r matches Err(e) ==> e is Store,
    {
        let mut db = store_result(open_db(db_path.as_str()))?;
        let mut events = store_result(open_tree(&mut db, EVENTS_TREE))?;
        let mut organizers = store_result(open_tree(&mut db, ORGANIZERS_TREE))?;
        let mut categories = store_result(open_tree(&mut db, CATEGORIES_TREE))?;
        set_concat_merge(&mut events);
        set_concat_merge(&mut organizers);
        set_concat_merge(&mut categories);
        Ok(EventManager { db, events, organizers, categories, open: true })
    }

    /// Drops the three trees and opens them anew, with the merge operator.
    /// Returns whether all three trees were dropped: then the store is empty.
    /// On an open manager a reset that succeeds drops all three. When a step
    /// fails, the manager is no longer open until a reset succeeds; its
    /// handles may be on dropped trees.
    pub fn reset_all(&mut self) -> (r: Result<bool, ManagerError>)
        requires
            old(self).wf(),
        ensures
            final(self).wf(),
            old(self).is_open() && r is Ok ==> r matches Ok(true),
            final(self).path() == old(self).path(),
            final(self)@.issued == old(self)@.issued,
            r is Ok ==> final(self).wf() && final(self).is_open() && final(self).trees_named(),
            r matches Ok(true) ==> final(self)@.events == Map::<Seq<u8>, Seq<u8>>::empty()
                && final(self)@.organizers == Map::<Seq<u8>, Seq<u8>>::empty() && final(self)@.categories
                == Map::<Seq<u8>, Seq<u8>>::empty(),
            r is Err ==> !final(self).is_open(),
            r matches Err(e) ==> e is Store,
    {
        proof {
            lemma_tree_names_differ();
        }
        self.open = false;
        let dropped_events = store_result(drop_tree(&mut self.db, EVENTS_TREE))?;
        let dropped_organizers = store_result(drop_tree(&mut self.db, ORGANIZERS_TREE))?;
        let dropped_categories = store_result(drop_tree(&mut self.db, CATEGORIES_TREE))?;
        let mut events = store_result(open_tree(&mut self.db, EVENTS_TREE))?;
        let mut organizers = store_result(open_tree(&mut self.db, ORGANIZERS_TREE))?;
        let mut categories = store_result(open_tree(&mut self.db, CATEGORIES_TREE))?;
        set_concat_merge(&mut events);
        set_concat_merge(&mut organizers);
        set_concat_merge(&mut categories);
        self.events = events;
        self.organizers = organizers;
        self.categories = categories;
        self.open = true;
        Ok(dropped_events && dropped_organizers && dropped_categories)
    }

    /// A fresh id from the database's counter: on success, none of the ids
    /// handed out before. What the trees hold stays.
    pub fn generate_id(&mut self) -> (r: Result<u64, ManagerError>)
        ensures
            final(self).wf() == old(self).wf(),
            final(self).path() == old(self).path(),
            final(self).is_open() == old(self).is_open(),
            final(self)@.events == old(self)@.events,
            final(self)@.organizers == old(self)@.organizers,
            final(self)@.categories == old(self)@.categories,
            old(self)@.issued.subset_of(final(self)@.issued),
            r matches Ok(v) ==> !old(self)@.issued.contains(v) && final(self)@.issued.contains(v),
            r matches Err(e) ==> e is Store,
    {
        store_result(crate::store::generate_id(&mut self.db))
    }

    /// Stores `record`, the serialized `new_event`, under the event's id and
    /// files the id under its organizer; then files it under its category,
    /// or fails with `UnknownCategory` when the category does not exist, in
    /// which case the record and the organizer entry stay written.
    pub fn create_event(&mut self, new_event: &Event, record: &[u8]) -> (r: Result<
        (),
        ManagerError,
    >)
        requires
            old(self).wf(),
        ensures
            final(self).wf(),
            final(self).path() == old(self).path(),
            final(self).is_open() == old(self).is_open(),
            r is Ok && chunked(old(self)@) ==> chunked(final(self)@),
            !old(self)@.has_category(new_event.category@) ==> final(self)@.categories == old(
                self,
            )@.categories,
            r is Ok ==> old(self)@.has_category(new_event.category@) && final(self)@ == old(
                self,
            )@.create_event(*new_event, record@),
            r matches Err(e) ==> (e is UnknownCategory && !old(self)@.has_category(
                new_event.category@,
            ) && final(self)@ == old(self)@.create_event(*new_event, record@)) || e is Store,
    {
        proof {
            if chunked(old(self)@) {
                law_operations_keep_chunks(old(self)@, *new_event, record@, new_event.id, *new_event, new_event.category@, new_event.category@, new_event.category@);
            }
        }
        let id = id_to_bytes(new_event.id);
        let org_id = id_to_bytes(new_event.organizer);
        let cat = new_event.category.as_str().as_bytes();
        store_result(tree_insert(&mut self.events, id.as_slice(), record))?;
        file(&mut self.organizers, org_id.as_slice(), id.as_slice())?;
        let has_cat = store_result(tree_contains(&self.categories, cat))?;
        if has_cat {
            file(&mut self.categories, cat, id.as_slice())?;
        } else {
            return Err(ManagerError::UnknownCategory);
        }
        Ok(())
    }

    /// The record stored for event `event_id`, if any.
    pub fn stored_event(&self, event_id: u64) -> (r: Result<Option<Vec<u8>>, ManagerError>)
        ensures
            r matches Ok(v) ==> opt_vec_bytes(v) == self@.record(event_id),
            r matches Err(e) ==> e is Store,
    {
        let id = id_to_bytes(event_id);
        let present = store_result(tree_contains(&self.events, id.as_slice()))?;
        if !present {
            return Ok(None);
        }
        store_result(tree_get(&self.events, id.as_slice()))
    }

    /// Deletes event `event_id`, whose stored record decodes to `stored`
    /// (`None` when `stored_event` found no record): when a record is stored,
    /// removes it, and removes the id from the entries of the organizer and
    /// of the category of `stored`; when none is, changes nothing.
    pub fn delete_event(&mut self, event_id: u64, stored: Option<&Event>) -> (r: Result<
        (),
        ManagerError,
    >)
        requires
            old(self).wf(),
        ensures
            final(self).wf(),
            final(self).path() == old(self).path(),
            final(self).is_open() == old(self).is_open(),
            r is Ok && chunked(old(self)@) ==> chunked(final(self)@),
            stored is None ==> r is Ok && final(self)@ == old(self)@,
            r is Ok && old(self)@.record(event_id) is None ==> final(self)@ == old(self)@,
            r is Ok && old(self)@.record(event_id) is Some ==> (match stored {
                Some(ev) => final(self)@ == old(self)@.delete_event(event_id, *ev),
                None => final(self)@ == old(self)@,
            }),
            r matches Err(e) ==> e is Store,
    {
        proof {
            if let Some(ev) = stored {
                if chunked(old(self)@) {
                    law_operations_keep_chunks(old(self)@, *ev, Seq::empty(), event_id, *ev, ev.category@, ev.category@, ev.category@);
                }
            }
        }
        let ev = match stored {
            Some(ev) => ev,
            None => return Ok(()),
        };
        let id = id_to_bytes(event_id);
        let present = store_result(tree_contains(&self.events, id.as_slice()))?;
        if !present {
            return Ok(());
        }
        let org_id = id_to_bytes(ev.organizer);
        let cat = ev.category.as_str().as_bytes();
        store_result(tree_remove(&mut self.events, id.as_slice()))?;
        unfile(&mut self.organizers, org_id.as_slice(), id.as_slice())?;
        unfile(&mut self.categories, cat, id.as_slice())?;
        Ok(())
    }

    /// Replaces the record stored under the event's id by `record`.
    pub fn update_event(&mut self, new_event: &Event, record: &[u8]) -> (r: Result<
        (),
        ManagerError,
    >)
        requires
            old(self).wf(),
        ensures
            final(self).wf(),
            final(self).path() == old(self).path(),
            final(self).is_open() == old(self).is_open(),
            r is Ok && chunked(old(self)@) ==> chunked(final(self)@),
            r is Ok ==> final(self)@ == old(self)@.update_event(*new_event, record@),
            r matches Err(e) ==> e is Store,
    {
        proof {
            if chunked(old(self)@) {
                law_operations_keep_chunks(old(self)@, *new_event, record@, new_event.id, *new_event, new_event.category@, new_event.category@, new_event.category@);
            }
        }
        let id = id_to_bytes(new_event.id);
        store_result(tree_insert(&mut self.events, id.as_slice(), record))?;
        Ok(())
    }

    /// The record stored for event `event_id`; `EventNotFound` when there is
    /// none.
    pub fn get_event(&self, event_id: u64) -> (r: Result<Vec<u8>, ManagerError>)
        ensures
            r matches Ok(v) ==> self@.record(event_id) == Some(v@),
            r matches Err(e) ==> (e is EventNotFound && self@.record(event_id) is None)
                || e is Store,
    {
        let id = id_to_bytes(event_id);
        match store_result(tree_get(&self.events, id.as_slice()))? {
            Some(e) => Ok(e),
            None => Err(ManagerError::EventNotFound),
        }
    }

    /// The ids filed under organizer `organizer`.
    pub fn events_for_organizer(&self, organizer: u64) -> (r: Result<Vec<u64>, ManagerError>)
        ensures
            r matches Ok(v) ==> v@ == self@.organizer_ids(organizer),
            r matches Err(e) ==> e is Store,
    {
        let key = id_to_bytes(organizer);
        match store_result(tree_get(&self.organizers, key.as_slice()))? {
            Some(ids) => Ok(ids_to_vec(ids.as_slice())),
            None => {
                assert(ids_of(Seq::<u8>::empty()) =~= Seq::<u64>::empty());
                Ok(Vec::new())
            },
        }
    }

    /// The ids filed under category `category`.
    pub fn events_for_category(&self, category: &Category) -> (r: Result<Vec<u64>, ManagerError>)
        ensures
            r matches Ok(v) ==> v@ == self@.category_ids(category@),
            r matches Err(e) ==> e is Store,
    {
        let key = category.as_str().as_bytes();
        match store_result(tree_get(&self.categories, key))? {
            Some(ids) => Ok(ids_to_vec(ids.as_slice())),
            None => {
                assert(ids_of(Seq::<u8>::empty()) =~= Seq::<u64>::empty());
                Ok(Vec::new())
            },
        }
    }

    /// Creates category `cat` with no events, unless it exists already.
    pub fn create_category(&mut self, cat: &Category) -> (r: Result<(), ManagerError>)
        requires
            old(self).wf(),
        ensures
            final(self).wf(),
            final(self).path() == old(self).path(),
            final(self).is_open() == old(self).is_open(),
            r is Ok && chunked(old(self)@) ==> chunked(final(self)@),
            r is Ok ==> final(self)@ == old(self)@.create_category(cat@),
            r matches Err(e) ==> e is Store,
    {
        proof {
            if chunked(old(self)@) {
                law_operations_keep_chunks(old(self)@, arbitrary(), Seq::empty(), 0, arbitrary(), cat@, cat@, cat@);
            }
        }
        let key = cat.as_str().as_bytes();
        let present = store_result(tree_contains(&self.categories, key))?;
        if !present {
            let empty: Vec<u8> = Vec::new();
            store_result(tree_insert(&mut self.categories, key, empty.as_slice()))?;
        }
        Ok(())
    }

    /// Deletes category `cat`; `CategoryNotFound` when it does not exist.
    pub fn delete_category(&mut self, cat: &Category) -> (r: Result<(), ManagerError>)
        requires
            old(self).wf(),
        ensures
            final(self).wf(),
            final(self).path() == old(self).path(),
            final(self).is_open() == old(self).is_open(),
            r is Ok && chunked(old(self)@) ==> chunked(final(self)@),
            r is Ok ==> old(self)@.has_category(cat@) && final(self)@ == old(self)@.delete_category(cat@),
            r matches Err(e) ==> (e is CategoryNotFound && !old(self)@.has_category(cat@) && final(self)@
                == old(self)@) || e is Store,
    {
        proof {
            if chunked(old(self)@) {
                law_operations_keep_chunks(old(self)@, arbitrary(), Seq::empty(), 0, arbitrary(), cat@, cat@, cat@);
            }
        }
        let key = cat.as_str().as_bytes();
        let present = store_result(tree_contains(&self.categories, key))?;
        if present {
            store_result(tree_remove(&mut self.categories, key))?;
        } else {
            return Err(ManagerError::CategoryNotFound);
        }
        Ok(())
    }

    /// Appends the event ids of `cat2` to those of `cat1`, creating `cat1`
    /// if needed, then deletes `cat2`; `CategoryNotFound` when `cat2` does
    /// not exist.
    pub fn merge_categories(&mut self, cat1: &Category, cat2: &Category) -> (r: Result<
        (),
        ManagerError,
    >)
        requires
            old(self).wf(),
        ensures
            final(self).wf(),
            final(self).path() == old(self).path(),
            final(self).is_open() == old(self).is_open(),
            r is Ok && chunked(old(self)@) ==> chunked(final(self)@),
            r is Ok ==> old(self)@.has_category(cat2@) && final(self)@ == old(self)@.merge_categories(
                cat1@,
                cat2@,
            ),
            r matches Err(e) ==> (e is CategoryNotFound && !old(self)@.has_category(cat2@) && final(self)@
                == old(self)@) || e is Store,
    {
        proof {
            if chunked(old(self)@) {
                law_operations_keep_chunks(old(self)@, arbitrary(), Seq::empty(), 0, arbitrary(), cat2@, cat1@, cat2@);
            }
        }
        let id1 = cat1.as_str().as_bytes();
        let id2 = cat2.as_str().as_bytes();
        let mut to_add: Vec<u8> = Vec::new();
        match store_result(tree_get(&self.categories, id2))? {
            Some(values) => {
                append_bytes(&mut to_add, values.as_slice());
            },
            None => {
                return Err(ManagerError::CategoryNotFound);
            },
        }
        assert(to_add@ =~= old(self)@.categories[category_key(cat2@)]);
        file(&mut self.categories, id1, to_add.as_slice())?;
        let r = self.delete_category(cat2);
        r
    }

    /// Every record that is read without error, in ascending order of the
    /// event keys.
    pub fn all_event_records(&self) -> (r: Vec<Vec<u8>>)
        requires
            self.wf(),
            self.is_open(),
        ensures
            exists|keys: Seq<Seq<u8>>| listed_in_key_order(self@.events, r@, keys),
            exists|es: Seq<Result<(Vec<u8>, Vec<u8>), sled::Error>>|
                entries_of(self@.events, es) && r@.map_values(|v: Vec<u8>| v@) == entry_values(es),
    {
        let entries = tree_entries(&self.db, &self.events);
        let ghost es = entries@;
        let (pairs, idx) = ok_entries(entries);
        let ghost ps = pairs@;
        let mut pairs = pairs;
        let mut out: Vec<Vec<u8>> = Vec::new();
        let n = pairs.len();
        let mut i: usize = 0;
        while i < n
            invariant
                n == ps.len(),
                i <= n,
                pairs@ == ps.skip(i as int),
                out@.len() == i,
                forall|p: int| 0 <= p < i ==> #[trigger] out@[p] == ps[p].1,
            decreases n - i,
        {
            assert(pairs@[0] == ps[i as int]);
            let kv = pairs.remove(0);
            out.push(kv.1);
            assert(pairs@ =~= ps.skip(i + 1));
            i = i + 1;
        }
        let ghost keys = Seq::new(ps.len(), |p: int| ps[p].0@);
        proof {
            assert forall|p: int| 0 <= p < keys.len() implies self@.events.contains_key(
                #[trigger] keys[p],
            ) && self@.events[keys[p]] == out@[p]@ by {
                let k = idx@[p];
                assert(es[k] == Ok::<(Vec<u8>, Vec<u8>), sled::Error>(ps[p]));
            }
            assert forall|p: int, q: int| 0 <= p < q < keys.len() implies bytes_lt(
                keys[p],
                keys[q],
            ) by {
                let a = idx@[p];
                let b = idx@[q];
                assert(es[a] == Ok::<(Vec<u8>, Vec<u8>), sled::Error>(ps[p]));
                assert(es[b] == Ok::<(Vec<u8>, Vec<u8>), sled::Error>(ps[q]));
                assert(entry_key(es[a]) == Some(keys[p]));
                assert(entry_key(es[b]) == Some(keys[q]));
            }
            assert(listed_in_key_order(self@.events, out@, keys));
            assert(out@.map_values(|v: Vec<u8>| v@) =~= entry_values(es));
            assert(entries_of(self@.events, es));
        }
        out
    }

    /// The names of the categories whose key is valid UTF-8 and read without
    /// error, in ascending order of their keys; entries that cannot be read
    /// are left out. Fails, with `Closed`, only when the trees are not open.
    pub fn get_categories(&self) -> (r: Result<Vec<Category>, ManagerError>)
        requires
            self.wf(),
        ensures
            r is Ok <==> self.is_open(),
            r matches Err(e) ==> e is Closed,
            r matches Ok(cs) ==> (forall|p: int|
                0 <= p < cs@.len() ==> self@.has_category(#[trigger] cs@[p]@)) && (forall|
                p: int,
                q: int,
            | 0 <= p < q < cs@.len() ==> bytes_lt(category_key(cs@[p]@), category_key(cs@[q]@))),
            r matches Ok(cs) ==> exists|es: Seq<Result<(Vec<u8>, Vec<u8>), sled::Error>>|
                entries_of(self@.categories, es) && cs@.map_values(|c: String| c@) == category_names(
                    ok_pairs(es),
                ),
    {
        if !self.open {
            return Err(ManagerError::Closed);
        }
        let entries = tree_entries(&self.db, &self.categories);
        let ghost es = entries@;
        let (pairs, idx) = ok_entries(entries);
        let ghost ps = pairs@;
        let mut pairs = pairs;
        let mut out: Vec<Category> = Vec::new();
        let ghost mut from: Seq<int> = Seq::empty();
        let n = pairs.len();
        let mut i: usize = 0;
        while i < n
            invariant
                n == ps.len(),
                i <= n,
                pairs@ == ps.skip(i as int),
                from.len() == out@.len(),
                forall|p: int|
                    0 <= p < out@.len() ==> 0 <= #[trigger] from[p] < i && category_key(out@[p]@)
                        == ps[from[p]].0@,
                forall|p: int, q: int| 0 <= p < q < out@.len() ==> from[p] < from[q],
                out@.map_values(|c: String| c@) == category_names(ps.take(i as int)),
            decreases n - i,
        {
            assert(pairs@[0] == ps[i as int]);
            assert(ps.take(i + 1).drop_last() =~= ps.take(i as int));
            assert(ps.take(i + 1).last() == ps[i as int]);
            let kv = pairs.remove(0);
            let ghost key = kv.0@;
            match string_from_utf8(kv.0) {
                Some(name) => {
                    proof {
                        decode_utf8_encode_utf8(key);
                        from = from.push(i as int);
                    }
                    out.push(name);
                },
                None => {},
            }
            assert(out@.map_values(|c: String| c@) =~= category_names(ps.take(i + 1)));
            assert(pairs@ =~= ps.skip(i + 1));
            i = i + 1;
        }
        proof {
            assert(ps.take(n as int) =~= ps);
            assert(entries_of(self@.categories, es));
            assert forall|p: int| 0 <= p < out@.len() implies self@.has_category(
                #[trigger] out@[p]@,
            ) by {
                let k = idx@[from[p]];
                assert(es[k] == Ok::<(Vec<u8>, Vec<u8>), sled::Error>(ps[from[p]]));
            }
            assert forall|p: int, q: int| 0 <= p < q < out@.len() implies bytes_lt(
                category_key(out@[p]@),
                category_key(out@[q]@),
            ) by {
                let a = idx@[from[p]];
                let b = idx@[from[q]];
                assert(es[a] == Ok::<(Vec<u8>, Vec<u8>), sled::Error>(ps[from[p]]));
                assert(es[b] == Ok::<(Vec<u8>, Vec<u8>), sled::Error>(ps[from[q]]));
                assert(entry_key(es[a]) == Some(category_key(out@[p]@)));
                assert(entry_key(es[b]) == Some(category_key(out@[q]@)));
            }
        }
        Ok(out)
    }

    /// The records of the events that a listing selects: every record when
    /// neither an organizer nor a category is given, in ascending order of
    /// the event keys; otherwise the records of the selected ids (see
    /// `select_ids`), each id once, skipping ids that have no record or whose
    /// read fails.
    pub fn event_records(&self, organizer: Option<u64>, category: Option<&Category>) -> (r: Result<
        Vec<Vec<u8>>,
        ManagerError,
    >)
        requires
            self.wf(),
        ensures
            organizer is None && category is None ==> (r is Ok <==> self.is_open()),
            r is Ok && organizer is None && category is None ==> exists|
                es: Seq<Result<(Vec<u8>, Vec<u8>), sled::Error>>,
            |
                entries_of(self@.events, es) && r->Ok_0@.map_values(|v: Vec<u8>| v@) == entry_values(
                    es,
                ),
            r is Ok && (organizer is Some || category is Some) ==> exists|ids: Seq<u64>|
                ids.no_duplicates() && ids.to_set() == self@.selected_ids(
                    organizer,
                    opt_category(category),
                ) && records_read(self@.events, ids, r->Ok_0@),
            r matches Err(e) ==> e is Store || (e is Closed && !self.is_open()),
    {
        if organizer.is_none() && category.is_none() {
            if !self.open {
                return Err(ManagerError::Closed);
            }
            let all = self.all_event_records();
            let ghost rr: Result<Vec<Vec<u8>>, ManagerError> = Ok(all);
            assert(rr->Ok_0@ == all@);
            return Ok(all);
        }
        let o = match organizer {
            Some(org) => Some(self.events_for_organizer(org)?),
            None => None,
        };
        let c = match category {
            Some(cat) => Some(self.events_for_category(cat)?),
            None => None,
        };
        let ghost sel = selection(opt_ids(o), opt_ids(c));
        assert(sel =~= self@.selected_ids(organizer, opt_category(category)));
        let ids = select_ids(o, c);
        let reads = read_ids(&self.events, &ids);
        let ghost outs = reads@.map_values(|x: Result<Option<Vec<u8>>, sled::Error>| read_outcome(x));
        let out = kept_values(reads);
        assert(reads_agree(self@.events, ids@, outs));
        assert(records_read(self@.events, ids@, out@));
        let ghost rr: Result<Vec<Vec<u8>>, ManagerError> = Ok(out);
        assert(rr->Ok_0@ == out@);
        Ok(out)
    }
}

} // verus!
