//! What holds of the application store across operations.

use crate::apps::data_manager::AppStore;
use crate::apps::types::Application;
use crate::codec::{id_bytes, lemma_id_bytes_injective, lemma_ids_of_append};
use crate::events::laws::{lemma_file_keeps_chunks, whole_chunks};
use crate::index::entry_or_empty;
use crate::store::{kept_records, law_reads_without_failure_keep_every_value, present_values, reads_agree};
use vstd::prelude::*;

verus! {

/// Both indexes of the application store hold whole eight-byte chunks.
pub open spec fn app_chunked(s: AppStore) -> bool {
    whole_chunks(s.users) && whole_chunks(s.events)
}

/// Creating an application and replacing a record keep the indexes made of
/// whole chunks.
pub proof fn law_app_operations_keep_chunks(
    s: AppStore,
    a: Application,
    record: Seq<u8>,
    id: u64,
    new_record: Seq<u8>,
)
    requires
        app_chunked(s),
    ensures
        app_chunked(s.create_app(a, record)),
        app_chunked(s.replace_record(id, new_record)),
{
    lemma_file_keeps_chunks(s.users, id_bytes(a.user_id), a.id);
    lemma_file_keeps_chunks(s.events, id_bytes(a.event_id), a.id);
}

/// Creating an application, then reading it, gives the record that was
/// written; the id is taken from then on, so a second creation with it is
/// refused.
pub proof fn law_read_after_create_app(s: AppStore, a: Application, record: Seq<u8>)
    ensures
        s.create_app(a, record).record(a.id) == Some(record),
        s.create_app(a, record).record(a.id) is Some,
{
}

/// Creating an application files its id last among the ids of its user and
/// of its event; other users keep their ids.
pub proof fn law_create_app_files_id(s: AppStore, a: Application, record: Seq<u8>)
    requires
        entry_or_empty(s.users, id_bytes(a.user_id)).len() % 8 == 0,
        entry_or_empty(s.events, id_bytes(a.event_id)).len() % 8 == 0,
    ensures
        s.create_app(a, record).user_ids(a.user_id) == s.user_ids(a.user_id).push(a.id),
        s.create_app(a, record).event_ids(a.event_id) == s.event_ids(a.event_id).push(a.id),
        forall|u: u64| u != a.user_id ==> s.create_app(a, record).user_ids(u) == s.user_ids(u),
{
    lemma_ids_of_append(entry_or_empty(s.users, id_bytes(a.user_id)), a.id);
    lemma_ids_of_append(entry_or_empty(s.events, id_bytes(a.event_id)), a.id);
    let t = s.create_app(a, record);
    assert forall|u: u64| u != a.user_id implies t.user_ids(u) == s.user_ids(u) by {
        lemma_id_bytes_injective(u, a.user_id);
        assert(entry_or_empty(t.users, id_bytes(u)) == entry_or_empty(s.users, id_bytes(u)));
    }
}

/// Replacing the record of an application, then reading it, gives the new
/// record; the records of other applications stay.
pub proof fn law_read_after_update_status(s: AppStore, id: u64, record: Seq<u8>, other: u64)
    requires
        other != id,
    ensures
        s.replace_record(id, record).record(id) == Some(record),
        s.replace_record(id, record).record(other) == s.record(other),
{
    lemma_id_bytes_injective(other, id);
}

/// Reading the applications of a user, with every read succeeding, lists
/// the record of each application filed under the user that has one, in
/// the order filed; likewise for an event.
pub proof fn law_listing_lists_filed_apps(
    s: AppStore,
    u: u64,
    user_reads: Seq<Option<Option<Seq<u8>>>>,
    e: u64,
    event_reads: Seq<Option<Option<Seq<u8>>>>,
)
    requires
        reads_agree(s.apps, s.user_ids(u), user_reads),
        forall|i: int| 0 <= i < user_reads.len() ==> #[trigger] user_reads[i] is Some,
        reads_agree(s.apps, s.event_ids(e), event_reads),
        forall|i: int| 0 <= i < event_reads.len() ==> #[trigger] event_reads[i] is Some,
    ensures
        kept_records(user_reads) == present_values(s.apps, s.user_ids(u)),
        kept_records(event_reads) == present_values(s.apps, s.event_ids(e)),
{
    law_reads_without_failure_keep_every_value(s.apps, s.user_ids(u), user_reads);
    law_reads_without_failure_keep_every_value(s.apps, s.event_ids(e), event_reads);
}

/// After `create_app`, reading the applications of its user, with every
/// read succeeding, gives the records listed before followed by the new
/// record; the same holds for its event.
pub proof fn law_listed_after_create_app(
    s: AppStore,
    a: Application,
    record: Seq<u8>,
    user_reads: Seq<Option<Option<Seq<u8>>>>,
    event_reads: Seq<Option<Option<Seq<u8>>>>,
)
    requires
        entry_or_empty(s.users, id_bytes(a.user_id)).len() % 8 == 0,
        entry_or_empty(s.events, id_bytes(a.event_id)).len() % 8 == 0,
        reads_agree(s.create_app(a, record).apps, s.create_app(a, record).user_ids(a.user_id), user_reads),
        forall|i: int| 0 <= i < user_reads.len() ==> #[trigger] user_reads[i] is Some,
        reads_agree(s.create_app(a, record).apps, s.create_app(a, record).event_ids(a.event_id), event_reads),
        forall|i: int| 0 <= i < event_reads.len() ==> #[trigger] event_reads[i] is Some,
    ensures
        kept_records(user_reads) == present_values(s.create_app(a, record).apps, s.user_ids(a.user_id)).push(record),
        kept_records(event_reads) == present_values(s.create_app(a, record).apps, s.event_ids(a.event_id)).push(record),
{
    let t = s.create_app(a, record);
    law_create_app_files_id(s, a, record);
    law_reads_without_failure_keep_every_value(t.apps, t.user_ids(a.user_id), user_reads);
    law_reads_without_failure_keep_every_value(t.apps, t.event_ids(a.event_id), event_reads);
    let us = s.user_ids(a.user_id).push(a.id);
    assert(us.drop_last() =~= s.user_ids(a.user_id));
    let es = s.event_ids(a.event_id).push(a.id);
    assert(es.drop_last() =~= s.event_ids(a.event_id));
}

/// After `update_status`, the ids filed under users and events stay, and
/// reading the applications of any user or event under which the
/// application is filed, with every read succeeding, lists the new record.
pub proof fn law_listed_after_update_status(
    s: AppStore,
    id: u64,
    record: Seq<u8>,
    ids: Seq<u64>,
    reads: Seq<Option<Option<Seq<u8>>>>,
)
    requires
        ids.contains(id),
        reads_agree(s.replace_record(id, record).apps, ids, reads),
        forall|i: int| 0 <= i < reads.len() ==> #[trigger] reads[i] is Some,
    ensures
        forall|u: u64| #[trigger] s.replace_record(id, record).user_ids(u) == s.user_ids(u),
        forall|e: u64| #[trigger] s.replace_record(id, record).event_ids(e) == s.event_ids(e),
        kept_records(reads).contains(record),
{
    let t = s.replace_record(id, record);
    law_reads_without_failure_keep_every_value(t.apps, ids, reads);
    lemma_present_values_contains(t.apps, ids, id);
}

/// The value of a listed key that has one is among the values present.
proof fn lemma_present_values_contains(m: Map<Seq<u8>, Seq<u8>>, ids: Seq<u64>, id: u64)
    requires
        ids.contains(id),
        m.contains_key(id_bytes(id)),
    ensures
        present_values(m, ids).contains(m[id_bytes(id)]),
    decreases ids.len(),
{
    let d = ids.drop_last();
    if ids.last() == id {
        assert(present_values(m, ids).last() == m[id_bytes(id)]);
    } else {
        let k = choose|k: int| 0 <= k < ids.len() && ids[k] == id;
        assert(d[k] == id);
        lemma_present_values_contains(m, d, id);
        let w = choose|j: int| 0 <= j < present_values(m, d).len() && present_values(m, d)[j] == m[id_bytes(id)];
        match m.get(id_bytes(ids.last())) {
            Some(b) => assert(present_values(m, ids)[w] == m[id_bytes(id)]),
            None => {},
        }
    }
}

} // verus!
