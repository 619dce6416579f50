//! The application store: three `sled` trees. `apps` maps the big-endian
//! bytes of an application id to the application's serialized record;
//! `userapps` and `eventapps` map the bytes of a user id, or of an event id,
//! to the ids of its applications.

pub use crate::codec::merge;
use crate::apps::laws::{app_chunked, law_app_operations_keep_chunks};
use crate::apps::types::Application;
use crate::codec::{id_bytes, id_to_bytes, ids_of, ids_to_vec};
use crate::error::{store_result, ManagerError};
use crate::index::{entry_or_empty, file, file_id};
use crate::store::{
    kept_values, read_ids, read_outcome, reads_agree, records_read, drop_tree, issued_ids, db_path_of, tree_in_table, tree_name, merges_by_concat, open_db, open_tree, set_concat_merge, tree_contains, tree_get,
    tree_insert, tree_swap, tree_view,
};
use vstd::prelude::*;

verus! {

/// Name of the tree of application records.
pub const APPS_TREE: &'static str = "apps";

/// Name of the tree of application ids by user.
pub const USER_APPS_TREE: &'static str = "userapps";

/// Name of the tree of application ids by event.
pub const EVENT_APPS_TREE: &'static str = "eventapps";

/// The three tree names differ.
proof fn lemma_tree_names_differ()
    ensures
        APPS_TREE@ != USER_APPS_TREE@,
        APPS_TREE@ != EVENT_APPS_TREE@,
        USER_APPS_TREE@ != EVENT_APPS_TREE@,
{
    reveal_strlit("apps");
    reveal_strlit("userapps");
    reveal_strlit("eventapps");
    assert("apps"@.len() == 4 && "userapps"@.len() == 8 && "eventapps"@.len() == 9);
}

/// What the application store holds.
pub struct AppStore {
    pub apps: Map<Seq<u8>, Seq<u8>>,
    pub users: Map<Seq<u8>, Seq<u8>>,
    pub events: Map<Seq<u8>, Seq<u8>>,
    /// The ids that the database's id counter has handed out.
    pub issued: Set<u64>,
}

impl AppStore {
    /// The record stored for application `id`.
    pub open spec fn record(self, id: u64) -> Option<Seq<u8>> {
        self.apps.get(id_bytes(id))
    }

    /// The application ids filed under user `u`.
    pub open spec fn user_ids(self, u: u64) -> Seq<u64> {
        ids_of(entry_or_empty(self.users, id_bytes(u)))
    }

    /// The application ids filed under event `e`.
    pub open spec fn event_ids(self, e: u64) -> Seq<u64> {
        ids_of(entry_or_empty(self.events, id_bytes(e)))
    }

    /// The store after `create_app`: the record is stored under the
    /// application's id, and the id is filed under its user and its event.
    pub open spec fn create_app(self, a: Application, record: Seq<u8>) -> AppStore {
        AppStore {
            apps: self.apps.insert(id_bytes(a.id), record),
            users: file_id(self.users, id_bytes(a.user_id), a.id),
            events: file_id(self.events, id_bytes(a.event_id), a.id),
            issued: self.issued,
        }
    }

    /// The store after `update_status`: the record of `id` is replaced.
    pub open spec fn replace_record(self, id: u64, record: Seq<u8>) -> AppStore {
        AppStore { apps: self.apps.insert(id_bytes(id), record), ..self }
    }
}

/// The id that the database's counter gave, or 42 when it failed.
pub fn generated_or_default(generated: Result<u64, sled::Error>) -> (r: u64)
    ensures
        generated matches Ok(v) ==> r == v,
        generated is Err ==> r == 42,
{
    match generated {
        Ok(id) => id,
        Err(_) => 42,
    }
}

/// The application manager: the database and its three trees.
pub struct EventManager {
    db: sled::Db,
    apps: sled::Tree,
    users: sled::Tree,
    events: sled::Tree,
    /// Whether the database's table of open trees holds the three names:
    /// false from the start of a reset until it has reopened the trees.
    open: bool,
}

impl View for EventManager {
    type V = AppStore;

    closed spec fn view(&self) -> AppStore {
        AppStore {
            apps: tree_view(self.apps),
            users: tree_view(self.users),
            events: tree_view(self.events),
            issued: issued_ids(self.db),
        }
    }
}

impl EventManager {
    /// Every tree has `codec::merge` as its merge operator, each handle is on
    /// the tree of its name, and, while the manager is open, the database's
    /// table of open trees holds the three names.
    pub closed spec fn wf(&self) -> bool {
        &&& merges_by_concat(self.apps)
        &&& merges_by_concat(self.users)
        &&& merges_by_concat(self.events)
        &&& self.trees_named()
        &&& self.open ==> tree_in_table(self.db, APPS_TREE@) && tree_in_table(self.db, USER_APPS_TREE@)
            && tree_in_table(self.db, EVENT_APPS_TREE@)
    }

    /// The handles are on the trees called `apps`, `userapps` and
    /// `eventapps`.
    pub closed spec fn trees_named(&self) -> bool {
        &&& tree_name(self.apps) == APPS_TREE@
        &&& tree_name(self.users) == USER_APPS_TREE@
        &&& tree_name(self.events) == EVENT_APPS_TREE@
    }

    /// The path that the manager's database was opened under.
    pub closed spec fn path(&self) -> Seq<char> {
        db_path_of(self.db)
    }

    /// Whether the manager's trees are open: true from `new` on, false after
    /// a reset that failed part-way, until a reset succeeds.
    pub closed spec fn is_open(&self) -> bool {
        self.open
    }

    /// Opens the database under `db_path` and its three trees, and installs
    /// the merge operator on each.
    pub fn new(db_path: &String) -> (r: Result<EventManager, ManagerError>)
        ensures
            r matches Ok(m) ==> m.wf() && m.is_open() && m.trees_named() && m.path() == db_path@,
            r matches Err(e) ==> e is Store,
    {
        let mut db = store_result(open_db(db_path.as_str()))?;
        let mut apps = store_result(open_tree(&mut db, APPS_TREE))?;
        let mut users = store_result(open_tree(&mut db, USER_APPS_TREE))?;
        let mut events = store_result(open_tree(&mut db, EVENT_APPS_TREE))?;
        set_concat_merge(&mut apps);
        set_concat_merge(&mut users);
        set_concat_merge(&mut events);
        Ok(EventManager { db, apps, users, events, open: true })
    }

    /// A fresh id from the database's counter, or 42 when the counter
    /// cannot be read: an id that was handed out before only as that 42.
    /// What the trees hold stays.
    pub fn generate_id(&mut self) -> (r: u64)
        ensures
            final(self).wf() == old(self).wf(),
            final(self).path() == old(self).path(),
            final(self).is_open() == old(self).is_open(),
            final(self)@.apps == old(self)@.apps,
            final(self)@.users == old(self)@.users,
            final(self)@.events == old(self)@.events,
            old(self)@.issued.subset_of(final(self)@.issued),
            (!old(self)@.issued.contains(r) && final(self)@.issued.contains(r)) || r == 42,
    {
        generated_or_default(crate::store::generate_id(&mut self.db))
    }

    /// Drops the three trees and opens them anew, with the merge operator.
    /// Returns whether all three trees were dropped: then the store is empty.
    /// On an open manager a reset that succeeds drops all three. When a step
    /// fails, the manager is no longer open until a reset succeeds; the
    /// handles stay, possibly on dropped trees, and the calls made through
    /// them fail.
    pub fn reset_all(&mut self) -> (r: Result<bool, ManagerError>)
        requires
            old(self).wf(),
        ensures
            final(self).wf(),
            old(self).is_open() && r is Ok ==> r matches Ok(true),
            r is Ok ==> final(self).is_open(),
            r is Err ==> !final(self).is_open(),
            final(self).path() == old(self).path(),
            final(self)@.issued == old(self)@.issued,
            r is Ok ==> final(self).wf() && final(self).trees_named(),
            r matches Ok(true) ==> final(self)@.apps == Map::<Seq<u8>, Seq<u8>>::empty()
                && final(self)@.users == Map::<Seq<u8>, Seq<u8>>::empty() && final(self)@.events
                == Map::<Seq<u8>, Seq<u8>>::empty(),
            r matches Err(e) ==> e is Store,
    {
        proof {
            lemma_tree_names_differ();
        }
        self.open = false;
        let dropped_apps = store_result(drop_tree(&mut self.db, APPS_TREE))?;
        let dropped_users = store_result(drop_tree(&mut self.db, USER_APPS_TREE))?;
        let dropped_events = store_result(drop_tree(&mut self.db, EVENT_APPS_TREE))?;
        let mut apps = store_result(open_tree(&mut self.db, APPS_TREE))?;
        let mut users = store_result(open_tree(&mut self.db, USER_APPS_TREE))?;
        let mut events = store_result(open_tree(&mut self.db, EVENT_APPS_TREE))?;
        set_concat_merge(&mut apps);
        set_concat_merge(&mut users);
        set_concat_merge(&mut events);
        self.apps = apps;
        self.users = users;
        self.events = events;
        self.open = true;
        Ok(dropped_apps && dropped_users && dropped_events)
    }

    /// Stores `record`, the serialized `new_app`, under the application's
    /// id and files the id under its user and its event; `AppExists` when an
    /// application with that id is stored already.
    pub fn create_app(&mut self, new_app: &Application, record: &[u8]) -> (r: Result<
        (),
        ManagerError,
    >)
        requires
            old(self).wf(),
        ensures
            final(self).wf(),
            final(self).path() == old(self).path(),
            final(self).is_open() == old(self).is_open(),
            r is Ok && app_chunked(old(self)@) ==> app_chunked(final(self)@),
            r is Ok ==> old(self)@.record(new_app.id) is None && final(self)@ == old(
                self,
            )@.create_app(*new_app, record@),
            r matches Err(e) ==> (e is AppExists && old(self)@.record(new_app.id) is Some
                && final(self)@ == old(self)@) || e is Store,
    {
        proof {
            if app_chunked(old(self)@) {
                law_app_operations_keep_chunks(old(self)@, *new_app, record@, new_app.id, record@);
            }
        }
        let id = id_to_bytes(new_app.id);
        let user_id = id_to_bytes(new_app.user_id);
        let event_id = id_to_bytes(new_app.event_id);
        let exists = store_result(tree_contains(&self.apps, id.as_slice()))?;
        if exists {
            return Err(ManagerError::AppExists);
        }
        store_result(tree_insert(&mut self.apps, id.as_slice(), record))?;
        file(&mut self.users, user_id.as_slice(), id.as_slice())?;
        file(&mut self.events, event_id.as_slice(), id.as_slice())?;
        Ok(())
    }

    /// The record stored for application `id`; `AppNotFound` when there is
    /// none.
    pub fn app_record(&self, id: u64) -> (r: Result<Vec<u8>, ManagerError>)
        ensures
            r matches Ok(v) ==> self@.record(id) == Some(v@),
            r matches Err(e) ==> (e is AppNotFound && self@.record(id) is None) || e is Store,
    {
        let key = id_to_bytes(id);
        let exists = store_result(tree_contains(&self.apps, key.as_slice()))?;
        if !exists {
            return Err(ManagerError::AppNotFound);
        }
        match store_result(tree_get(&self.apps, key.as_slice()))? {
            Some(old_app) => Ok(old_app),
            None => Err(ManagerError::AppNotFound),
        }
    }

    /// Replaces the record of application `id`, read as `old_record`, by
    /// `new_record`, the same application with its new status; `Conflict`
    /// when the stored record is no longer `old_record`.
    pub fn update_status(&mut self, id: u64, old_record: &[u8], new_record: &[u8]) -> (r: Result<
        (),
        ManagerError,
    >)
        requires
            old(self).wf(),
        ensures
            final(self).wf(),
            final(self).path() == old(self).path(),
            final(self).is_open() == old(self).is_open(),
            r is Ok && app_chunked(old(self)@) ==> app_chunked(final(self)@),
            r is Ok ==> old(self)@.record(id) == Some(old_record@) && final(self)@ == old(
                self,
            )@.replace_record(id, new_record@),
            r matches Err(e) ==> (e is Conflict && old(self)@.record(id) != Some(old_record@)
                && final(self)@ == old(self)@) || e is Store,
    {
        proof {
            if app_chunked(old(self)@) {
                law_app_operations_keep_chunks(old(self)@, arbitrary(), Seq::empty(), id, new_record@);
            }
        }
        let key = id_to_bytes(id);
        let swapped = store_result(tree_swap(&mut self.apps, key.as_slice(), old_record, new_record))?;
        if swapped {
            Ok(())
        } else {
            Err(ManagerError::Conflict)
        }
    }

    /// The records of the applications whose ids are filed under `key` in
    /// `index`, read one by one, skipping ids that have no record or whose
    /// read fails.
    fn apps_for(&self, index: &sled::Tree, key: &[u8]) -> (r: Result<Vec<Vec<u8>>, ManagerError>)
        ensures
            r matches Ok(rs) ==> records_read(
                self@.apps,
                ids_of(entry_or_empty(tree_view(*index), key@)),
                rs@,
            ),
            r matches Err(e) ==> e is Store,
    {
        let ids = match store_result(tree_get(index, key))? {
            Some(i) => ids_to_vec(i.as_slice()),
            None => {
                assert(ids_of(Seq::<u8>::empty()) =~= Seq::<u64>::empty());
                Vec::new()
            },
        };
        let reads = read_ids(&self.apps, &ids);
        let ghost outs = reads@.map_values(|x: Result<Option<Vec<u8>>, sled::Error>| read_outcome(x));
        let res = kept_values(reads);
        assert(reads_agree(self@.apps, ids@, outs));
        Ok(res)
    }

    /// The records of the applications of user `user_id`.
    pub fn get_for_user(&self, user_id: u64) -> (r: Result<Vec<Vec<u8>>, ManagerError>)
        ensures
            r matches Ok(rs) ==> records_read(self@.apps, self@.user_ids(user_id), rs@),
            r matches Err(e) ==> e is Store,
    {
        let id = id_to_bytes(user_id);
        self.apps_for(&self.users, id.as_slice())
    }

    /// The records of the applications to event `event_id`.
    pub fn get_for_event(&self, event_id: u64) -> (r: Result<Vec<Vec<u8>>, ManagerError>)
        ensures
            r matches Ok(rs) ==> records_read(self@.apps, self@.event_ids(event_id), rs@),
            r matches Err(e) ==> e is Store,
    {
        let id = id_to_bytes(event_id);
        self.apps_for(&self.events, id.as_slice())
    }
}

} // verus!
