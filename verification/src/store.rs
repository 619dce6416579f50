//! The `sled` database as the services use it: a tree is a map from byte
//! keys to byte values. The calls into `sled` stand behind the trusted items
//! of `store_t`, whose contracts speak of `tree_view`, what a tree holds, of
//! `merges_by_concat`, whether merges into a tree append bytes, of
//! `has_tree`, which trees a database holds, of `issued_ids`, the ids its
//! counter has handed out, of `db_path_of` and `tree_name`, and of
//! `tree_live`, whether a handle is on a tree not dropped since. This module
//! holds what is verified over them: reading entries and ids.
//!
//! The contracts take a tree that only this library writes to: every tree
//! handle lives in one manager and every write goes through a `&mut` handle.
//! What a failed call leaves behind is not stated.

pub use crate::store_t::{
    db_path_of, issued_ids, merges_by_concat, tree_in_table, tree_live, tree_name, tree_view, Entries,
};
pub(crate) use crate::store_t::{
    drop_tree, generate_id, open_db, open_tree, set_concat_merge, string_from_utf8, tree_contains,
    tree_entries, tree_get, tree_insert, tree_merge, tree_remove, tree_swap,
};
use crate::codec::{bytes_lt, id_bytes, id_to_bytes, opt_vec_bytes};
use vstd::prelude::*;

verus! {

/// The keys of the entries that were read without error.
pub open spec fn entry_key(e: Result<(Vec<u8>, Vec<u8>), sled::Error>) -> Option<Seq<u8>> {
    match e {
        Ok(kv) => Some(kv.0@),
        Err(_) => None,
    }
}

/// `es` is a list of entries that iterating a tree holding `m` can give:
/// each entry read without error is a key of `m` with its value, and their
/// keys ascend.
pub open spec fn entries_sound(m: Map<Seq<u8>, Seq<u8>>, es: Seq<Result<(Vec<u8>, Vec<u8>), sled::Error>>) -> bool {
    &&& forall|i: int|
        0 <= i < es.len() ==> (#[trigger] es[i] matches Ok(kv) ==> m.contains_key(kv.0@)
            && m[kv.0@] == kv.1@)
    &&& forall|i: int, j: int|
        0 <= i < j < es.len() && #[trigger] entry_key(es[i]) is Some && #[trigger] entry_key(
            es[j],
        ) is Some ==> bytes_lt(entry_key(es[i])->0, entry_key(es[j])->0)
}

/// Every entry was read without error.
pub open spec fn all_read(es: Seq<Result<(Vec<u8>, Vec<u8>), sled::Error>>) -> bool {
    forall|i: int| 0 <= i < es.len() ==> #[trigger] es[i] is Ok
}

/// `es` is what iterating a tree holding `m` can give: sound, and, when
/// every entry was read without error, listing every key of `m`.
pub open spec fn entries_of(m: Map<Seq<u8>, Seq<u8>>, es: Seq<Result<(Vec<u8>, Vec<u8>), sled::Error>>) -> bool {
    &&& entries_sound(m, es)
    &&& all_read(es) ==> forall|k: Seq<u8>|
        #[trigger] m.contains_key(k) ==> exists|i: int|
            0 <= i < es.len() && #[trigger] entry_key(es[i]) == Some(k)
}

/// The entries that were read without error, in order.
pub open spec fn ok_pairs(es: Seq<Result<(Vec<u8>, Vec<u8>), sled::Error>>) -> Seq<(Vec<u8>, Vec<u8>)>
    decreases es.len(),
{
    if es.len() == 0 {
        Seq::empty()
    } else {
        let rest = ok_pairs(es.drop_last());
        match es.last() {
            Ok(kv) => rest.push(kv),
            Err(_) => rest,
        }
    }
}

/// The values of the entries that were read without error, in order.
pub open spec fn entry_values(es: Seq<Result<(Vec<u8>, Vec<u8>), sled::Error>>) -> Seq<Seq<u8>> {
    ok_pairs(es).map_values(|kv: (Vec<u8>, Vec<u8>)| kv.1@)
}

/// When every entry was read without error, they are all kept, in order.
pub proof fn lemma_ok_pairs_all_read(es: Seq<Result<(Vec<u8>, Vec<u8>), sled::Error>>)
    requires
        all_read(es),
    ensures
        ok_pairs(es).len() == es.len(),
        forall|i: int| 0 <= i < es.len() ==> es[i] == Ok::<(Vec<u8>, Vec<u8>), sled::Error>(#[trigger] ok_pairs(es)[i]),
    decreases es.len(),
{
    if es.len() > 0 {
        let d = es.drop_last();
        assert forall|i: int| 0 <= i < d.len() implies #[trigger] d[i] is Ok by {
            assert(d[i] == es[i]);
        }
        lemma_ok_pairs_all_read(d);
        assert(es[es.len() - 1] is Ok);
        assert forall|i: int| 0 <= i < es.len() implies es[i] == Ok::<(Vec<u8>, Vec<u8>), sled::Error>(
            #[trigger] ok_pairs(es)[i],
        ) by {
            if i < es.len() - 1 {
                assert(d[i] == es[i]);
            }
        }
    }
}

/// Each entry kept by `ok_pairs` is a key of `m` with its value, when every
/// entry read without error is.
pub proof fn lemma_ok_pairs_sound(m: Map<Seq<u8>, Seq<u8>>, es: Seq<Result<(Vec<u8>, Vec<u8>), sled::Error>>)
    requires
        forall|i: int|
            0 <= i < es.len() ==> (#[trigger] es[i] matches Ok(kv) ==> m.contains_key(kv.0@)
                && m[kv.0@] == kv.1@),
    ensures
        forall|p: int|
            0 <= p < ok_pairs(es).len() ==> m.contains_key(#[trigger] ok_pairs(es)[p].0@)
                && m[ok_pairs(es)[p].0@] == ok_pairs(es)[p].1@,
    decreases es.len(),
{
    if es.len() > 0 {
        let d = es.drop_last();
        assert forall|i: int| 0 <= i < d.len() implies (#[trigger] d[i] matches Ok(kv)
            ==> m.contains_key(kv.0@) && m[kv.0@] == kv.1@) by {
            assert(d[i] == es[i]);
        }
        lemma_ok_pairs_sound(m, d);
        assert(es.last() == es[es.len() - 1]);
        let rest = ok_pairs(d);
        assert forall|p: int| 0 <= p < ok_pairs(es).len() implies m.contains_key(
            #[trigger] ok_pairs(es)[p].0@,
        ) && m[ok_pairs(es)[p].0@] == ok_pairs(es)[p].1@ by {
            if p < rest.len() {
                assert(ok_pairs(es)[p] == rest[p]);
            }
        }
    }
}

/// Each entry kept by `ok_pairs` is one of the entries read without error.
pub proof fn lemma_ok_pairs_from(es: Seq<Result<(Vec<u8>, Vec<u8>), sled::Error>>)
    ensures
        forall|p: int|
            0 <= p < ok_pairs(es).len() ==> exists|i: int|
                0 <= i < es.len() && es[i] == Ok::<(Vec<u8>, Vec<u8>), sled::Error>(
                    #[trigger] ok_pairs(es)[p],
                ),
    decreases es.len(),
{
    if es.len() > 0 {
        let d = es.drop_last();
        lemma_ok_pairs_from(d);
        let rest = ok_pairs(d);
        assert forall|p: int| 0 <= p < ok_pairs(es).len() implies exists|i: int|
            0 <= i < es.len() && es[i] == Ok::<(Vec<u8>, Vec<u8>), sled::Error>(
                #[trigger] ok_pairs(es)[p],
            ) by {
            if p < rest.len() {
                assert(ok_pairs(es)[p] == rest[p]);
                let i = choose|i: int| 0 <= i < d.len() && d[i] == Ok::<(Vec<u8>, Vec<u8>), sled::Error>(rest[p]);
                assert(es[i] == d[i]);
            } else {
                assert(es[es.len() - 1] == es.last());
            }
        }
    }
}

/// The keys of the entries kept by `ok_pairs` ascend, when those of the
/// entries read without error do.
pub proof fn lemma_ok_pairs_ascending(m: Map<Seq<u8>, Seq<u8>>, es: Seq<Result<(Vec<u8>, Vec<u8>), sled::Error>>)
    requires
        entries_sound(m, es),
    ensures
        forall|p: int, q: int|
            0 <= p < q < ok_pairs(es).len() ==> bytes_lt(
                #[trigger] ok_pairs(es)[p].0@,
                #[trigger] ok_pairs(es)[q].0@,
            ),
    decreases es.len(),
{
    if es.len() > 0 {
        let d = es.drop_last();
        assert forall|i: int| 0 <= i < d.len() implies (#[trigger] d[i] matches Ok(kv)
            ==> m.contains_key(kv.0@) && m[kv.0@] == kv.1@) by {
            assert(d[i] == es[i]);
        }
        assert forall|i: int, j: int|
            0 <= i < j < d.len() && #[trigger] entry_key(d[i]) is Some && #[trigger] entry_key(d[j]) is Some
            implies bytes_lt(entry_key(d[i])->0, entry_key(d[j])->0) by {
            assert(d[i] == es[i] && d[j] == es[j]);
            assert(entry_key(es[i]) is Some && entry_key(es[j]) is Some);
        }
        lemma_ok_pairs_ascending(m, d);
        lemma_ok_pairs_from(d);
        let rest = ok_pairs(d);
        let ps = ok_pairs(es);
        assert forall|p: int, q: int| 0 <= p < q < ps.len() implies bytes_lt(
            #[trigger] ps[p].0@,
            #[trigger] ps[q].0@,
        ) by {
            assert(ps[p] == rest[p]);
            if q < rest.len() {
                assert(ps[q] == rest[q]);
            } else {
                let n = es.len() - 1;
                assert(es[n] == es.last());
                let i = choose|i: int| 0 <= i < d.len() && d[i] == Ok::<(Vec<u8>, Vec<u8>), sled::Error>(rest[p]);
                assert(es[i] == d[i]);
                assert(entry_key(es[i]) == Some(ps[p].0@));
                assert(entry_key(es[n]) == Some(ps[q].0@));
            }
        }
    }
}

/// When every entry of a tree holding `m` was read without error, the
/// entries list each key of `m` once, in ascending order, with its value.
pub proof fn law_entries_list_every_key(m: Map<Seq<u8>, Seq<u8>>, es: Seq<Result<(Vec<u8>, Vec<u8>), sled::Error>>)
    requires
        entries_of(m, es),
        all_read(es),
    ensures
        forall|k: Seq<u8>|
            #[trigger] m.contains_key(k) <==> exists|p: int|
                0 <= p < ok_pairs(es).len() && #[trigger] ok_pairs(es)[p].0@ == k,
        forall|p: int|
            0 <= p < ok_pairs(es).len() ==> #[trigger] entry_values(es)[p] == m[ok_pairs(es)[p].0@],
        entry_values(es).len() == ok_pairs(es).len(),
        forall|p: int, q: int|
            0 <= p < q < ok_pairs(es).len() ==> bytes_lt(#[trigger] ok_pairs(es)[p].0@, #[trigger] ok_pairs(es)[q].0@),
{
    lemma_ok_pairs_all_read(es);
    lemma_ok_pairs_sound(m, es);
    let ps = ok_pairs(es);
    assert forall|k: Seq<u8>| #[trigger] m.contains_key(k) <==> exists|p: int|
        0 <= p < ps.len() && #[trigger] ps[p].0@ == k by {
        if m.contains_key(k) {
            let i = choose|i: int| 0 <= i < es.len() && #[trigger] entry_key(es[i]) == Some(k);
            assert(es[i] == Ok::<(Vec<u8>, Vec<u8>), sled::Error>(ps[i]));
            assert(ps[i].0@ == k);
        }
    }
    assert forall|p: int, q: int| 0 <= p < q < ps.len() implies bytes_lt(#[trigger] ps[p].0@, #[trigger] ps[q].0@) by {
        assert(es[p] == Ok::<(Vec<u8>, Vec<u8>), sled::Error>(ps[p]));
        assert(es[q] == Ok::<(Vec<u8>, Vec<u8>), sled::Error>(ps[q]));
        assert(entry_key(es[p]) == Some(ps[p].0@));
        assert(entry_key(es[q]) == Some(ps[q].0@));
    }
}

/// The entries that were read without error, in their order, with the
/// position of each in `entries`.
pub fn ok_entries(entries: Entries) -> (r: (Vec<(Vec<u8>, Vec<u8>)>, Ghost<Seq<int>>))
    ensures
        r.1@.len() == r.0@.len(),
        forall|p: int|
            0 <= p < r.0@.len() ==> 0 <= #[trigger] r.1@[p] < entries@.len() && entries@[r.1@[p]]
                == Ok::<(Vec<u8>, Vec<u8>), sled::Error>(r.0@[p]),
        forall|p: int, q: int| 0 <= p < q < r.0@.len() ==> r.1@[p] < r.1@[q],
        r.0@ == ok_pairs(entries@),
{
    let ghost orig = entries@;
    let mut entries = entries;
    let mut out: Vec<(Vec<u8>, Vec<u8>)> = Vec::new();
    let ghost mut idx: Seq<int> = Seq::empty();
    let n = entries.len();
    let mut i: usize = 0;
    assert(orig.take(0) =~= Seq::<Result<(Vec<u8>, Vec<u8>), sled::Error>>::empty());
    while i < n
        invariant
            n == orig.len(),
            i <= n,
            entries@ == orig.skip(i as int),
            idx.len() == out@.len(),
            forall|p: int|
                0 <= p < out@.len() ==> 0 <= #[trigger] idx[p] < i && orig[idx[p]] == Ok::<
                    (Vec<u8>, Vec<u8>),
                    sled::Error,
                >(out@[p]),
            forall|p: int, q: int| 0 <= p < q < out@.len() ==> idx[p] < idx[q],
            out@ == ok_pairs(orig.take(i as int)),
        decreases n - i,
    {
        assert(entries@[0] == orig[i as int]);
        assert(orig.take(i + 1).drop_last() =~= orig.take(i as int));
        assert(orig.take(i + 1).last() == orig[i as int]);
        let e = entries.remove(0);
        match e {
            Ok(kv) => {
                proof {
                    idx = idx.push(i as int);
                }
                out.push(kv);
            },
            Err(_) => {},
        }
        assert(entries@ =~= orig.skip(i + 1));
        i = i + 1;
    }
    assert(orig.take(n as int) =~= orig);
    (out, Ghost(idx))
}

/// What a read of one key gave: `None` when it failed, otherwise the value
/// found, if any.
pub open spec fn read_outcome(r: Result<Option<Vec<u8>>, sled::Error>) -> Option<Option<Seq<u8>>> {
    match r {
        Ok(v) => Some(opt_vec_bytes(v)),
        Err(_) => None,
    }
}

/// The values that reading keys one by one keeps: the values found, in
/// order; failed reads and missing keys give none.
pub open spec fn kept_records(reads: Seq<Option<Option<Seq<u8>>>>) -> Seq<Seq<u8>>
    decreases reads.len(),
{
    if reads.len() == 0 {
        Seq::empty()
    } else {
        let rest = kept_records(reads.drop_last());
        match reads.last() {
            Some(Some(b)) => rest.push(b),
            _ => rest,
        }
    }
}

/// `reads` has one read for each of `ids`, and each read that succeeded
/// found what `m` holds under the id's key.
pub open spec fn reads_agree(m: Map<Seq<u8>, Seq<u8>>, ids: Seq<u64>, reads: Seq<Option<Option<Seq<u8>>>>) -> bool {
    &&& reads.len() == ids.len()
    &&& forall|i: int|
        0 <= i < reads.len() ==> (#[trigger] reads[i] matches Some(o) ==> o == m.get(id_bytes(ids[i])))
}

/// `rs` are the values that reading `ids` one by one from `m` keeps, for
/// some outcome of the reads.
pub open spec fn records_read(m: Map<Seq<u8>, Seq<u8>>, ids: Seq<u64>, rs: Seq<Vec<u8>>) -> bool {
    exists|reads: Seq<Option<Option<Seq<u8>>>>|
        reads_agree(m, ids, reads) && rs.map_values(|v: Vec<u8>| v@) == kept_records(reads)
}

/// The values of `m` under the keys of `ids` that have one, in order.
pub open spec fn present_values(m: Map<Seq<u8>, Seq<u8>>, ids: Seq<u64>) -> Seq<Seq<u8>>
    decreases ids.len(),
{
    if ids.len() == 0 {
        Seq::empty()
    } else {
        let rest = present_values(m, ids.drop_last());
        match m.get(id_bytes(ids.last())) {
            Some(b) => rest.push(b),
            None => rest,
        }
    }
}

/// When every read succeeds, the values kept are the values of `m` under
/// the keys of `ids` that have one, in order.
pub proof fn law_reads_without_failure_keep_every_value(
    m: Map<Seq<u8>, Seq<u8>>,
    ids: Seq<u64>,
    reads: Seq<Option<Option<Seq<u8>>>>,
)
    requires
        reads_agree(m, ids, reads),
        forall|i: int| 0 <= i < reads.len() ==> #[trigger] reads[i] is Some,
    ensures
        kept_records(reads) == present_values(m, ids),
    decreases ids.len(),
{
    if ids.len() > 0 {
        let r = reads.drop_last();
        let d = ids.drop_last();
        assert forall|i: int| 0 <= i < r.len() implies #[trigger] r[i] is Some by {
            assert(r[i] == reads[i]);
        }
        assert forall|i: int| 0 <= i < r.len() implies (#[trigger] r[i] matches Some(o) ==> o
            == m.get(id_bytes(d[i]))) by {
            assert(r[i] == reads[i]);
            assert(reads[i] matches Some(o) ==> o == m.get(id_bytes(ids[i])));
        }
        law_reads_without_failure_keep_every_value(m, d, r);
        assert(reads[reads.len() - 1] is Some);
    }
}

/// The ids whose read found a value, in order: the ids that the values
/// kept by `kept_records` belong to.
pub open spec fn kept_ids(ids: Seq<u64>, reads: Seq<Option<Option<Seq<u8>>>>) -> Seq<u64>
    decreases reads.len(),
{
    if reads.len() == 0 || ids.len() == 0 {
        Seq::empty()
    } else {
        let rest = kept_ids(ids.drop_last(), reads.drop_last());
        match reads.last() {
            Some(Some(_)) => rest.push(ids.last()),
            _ => rest,
        }
    }
}

/// Each value kept belongs to one of `ids`, in the same position among the
/// kept ids; no id is kept twice when none occurs twice in `ids`; and when
/// every read succeeds, every id of `ids` that `m` holds a value for is kept.
pub proof fn lemma_kept_ids(
    m: Map<Seq<u8>, Seq<u8>>,
    ids: Seq<u64>,
    reads: Seq<Option<Option<Seq<u8>>>>,
)
    requires
        reads_agree(m, ids, reads),
    ensures
        kept_ids(ids, reads).len() == kept_records(reads).len(),
        forall|p: int|
            0 <= p < kept_ids(ids, reads).len() ==> ids.contains(#[trigger] kept_ids(ids, reads)[p])
                && m.get(id_bytes(kept_ids(ids, reads)[p])) == Some(kept_records(reads)[p]),
        ids.no_duplicates() ==> kept_ids(ids, reads).no_duplicates(),
        (forall|i: int| 0 <= i < reads.len() ==> #[trigger] reads[i] is Some) ==> forall|id: u64|
            ids.contains(id) && m.contains_key(id_bytes(id)) ==> #[trigger] kept_ids(ids, reads).contains(id),
    decreases ids.len(),
{
    if ids.len() > 0 {
        let r = reads.drop_last();
        let d = ids.drop_last();
        assert forall|i: int| 0 <= i < r.len() implies (#[trigger] r[i] matches Some(o) ==> o
            == m.get(id_bytes(d[i]))) by {
            assert(r[i] == reads[i]);
            assert(reads[i] matches Some(o) ==> o == m.get(id_bytes(ids[i])));
        }
        lemma_kept_ids(m, d, r);
        let k0 = kept_ids(d, r);
        let k = kept_ids(ids, reads);
        let last = ids.last();
        assert(reads.last() == reads[reads.len() - 1]);
        assert(reads[reads.len() - 1] matches Some(o) ==> o == m.get(id_bytes(ids[ids.len() - 1])));
        assert forall|x: u64| d.contains(x) implies ids.contains(x) by {
            let j = choose|j: int| 0 <= j < d.len() && d[j] == x;
            assert(ids[j] == x);
        }
        assert forall|p: int| 0 <= p < k.len() implies ids.contains(#[trigger] k[p]) && m.get(
            id_bytes(k[p]),
        ) == Some(kept_records(reads)[p]) by {
            if p < k0.len() {
                assert(k[p] == k0[p]);
                assert(d.contains(k0[p]));
            } else {
                assert(ids[ids.len() - 1] == last);
            }
        }
        if ids.no_duplicates() {
            assert(d.no_duplicates());
            if k.len() > k0.len() {
                assert(!d.contains(last)) by {
                    if d.contains(last) {
                        let j = choose|j: int| 0 <= j < d.len() && d[j] == last;
                        assert(ids[j] == ids[ids.len() - 1]);
                    }
                }
                assert forall|a: int, b: int| 0 <= a < b < k.len() implies k[a] != k[b] by {
                    if b == k.len() - 1 {
                        assert(k[a] == k0[a]);
                        assert(d.contains(k0[a]));
                    } else {
                        assert(k[a] == k0[a] && k[b] == k0[b]);
                    }
                }
            }
        }
        if forall|i: int| 0 <= i < reads.len() ==> #[trigger] reads[i] is Some {
            assert forall|i: int| 0 <= i < r.len() implies #[trigger] r[i] is Some by {
                assert(r[i] == reads[i]);
            }
            assert forall|id: u64| ids.contains(id) && m.contains_key(id_bytes(id)) implies #[trigger] k.contains(id) by {
                if id == last {
                    assert(reads[reads.len() - 1] is Some);
                    assert(k[k.len() - 1] == id);
                } else {
                    let j = choose|j: int| 0 <= j < ids.len() && ids[j] == id;
                    assert(d[j] == id);
                    assert(k0.contains(id));
                    let q = choose|q: int| 0 <= q < k0.len() && k0[q] == id;
                    assert(k[q] == id);
                }
            }
        }
    }
}

/// Reads the value stored under the key of each of `ids`, in order.
pub fn read_ids(tree: &sled::Tree, ids: &Vec<u64>) -> (r: Vec<Result<Option<Vec<u8>>, sled::Error>>)
    ensures
        reads_agree(tree_view(*tree), ids@, r@.map_values(|x: Result<Option<Vec<u8>>, sled::Error>| read_outcome(x))),
{
    let mut out: Vec<Result<Option<Vec<u8>>, sled::Error>> = Vec::new();
    let mut i: usize = 0;
    while i < ids.len()
        invariant
            i <= ids@.len(),
            out@.len() == i,
            forall|k: int|
                0 <= k < i ==> (#[trigger] out@[k] matches Ok(o) ==> opt_vec_bytes(o) == tree_view(
                    *tree,
                ).get(id_bytes(ids@[k]))),
        decreases ids@.len() - i,
    {
        let key = id_to_bytes(ids[i]);
        out.push(tree_get(tree, key.as_slice()));
        i = i + 1;
    }
    let ghost reads = out@.map_values(|x: Result<Option<Vec<u8>>, sled::Error>| read_outcome(x));
    assert forall|k: int| 0 <= k < reads.len() implies (#[trigger] reads[k] matches Some(o) ==> o
        == tree_view(*tree).get(id_bytes(ids@[k]))) by {
        assert(reads[k] == read_outcome(out@[k]));
    }
    out
}

/// The values that a sequence of reads found, in order; failed reads and
/// missing keys give none.
pub fn kept_values(reads: Vec<Result<Option<Vec<u8>>, sled::Error>>) -> (r: Vec<Vec<u8>>)
    ensures
        r@.map_values(|v: Vec<u8>| v@) == kept_records(
            reads@.map_values(|x: Result<Option<Vec<u8>>, sled::Error>| read_outcome(x)),
        ),
{
    let ghost orig = reads@;
    let ghost outs = orig.map_values(|x: Result<Option<Vec<u8>>, sled::Error>| read_outcome(x));
    let mut rest = reads;
    let mut out: Vec<Vec<u8>> = Vec::new();
    let n = rest.len();
    let mut i: usize = 0;
    assert(out@.map_values(|v: Vec<u8>| v@) =~= kept_records(outs.take(0)));
    while i < n
        invariant
            n == orig.len(),
            i <= n,
            outs == orig.map_values(|x: Result<Option<Vec<u8>>, sled::Error>| read_outcome(x)),
            rest@ == orig.skip(i as int),
            out@.map_values(|v: Vec<u8>| v@) == kept_records(outs.take(i as int)),
        decreases n - i,
    {
        assert(rest@[0] == orig[i as int]);
        let x = rest.remove(0);
        proof {
            assert(outs.take(i + 1).drop_last() =~= outs.take(i as int));
            assert(outs.take(i + 1).last() == read_outcome(orig[i as int]));
        }
        match x {
            Ok(Some(v)) => out.push(v),
            _ => {},
        }
        assert(out@.map_values(|v: Vec<u8>| v@) =~= kept_records(outs.take(i + 1)));
        assert(rest@ =~= orig.skip(i + 1));
        i = i + 1;
    }
    assert(outs.take(n as int) =~= outs);
    out
}

} // verus!
