//! Index entries: under each key, the concatenated bytes of the ids filed
//! there. Filing appends an id; unfiling cuts it out as `codec::remove_id`
//! does.

use crate::codec::{id_bytes, remove_id, without_id};
use crate::error::{store_result, ManagerError};
use crate::store::{merges_by_concat, tree_live, tree_name, tree_contains, tree_get, tree_insert, tree_merge, tree_swap, tree_view};
use vstd::prelude::*;

verus! {

/// The index entry under `k`, or nothing.
pub open spec fn entry_or_empty(m: Map<Seq<u8>, Seq<u8>>, k: Seq<u8>) -> Seq<u8> {
    if m.contains_key(k) {
        m[k]
    } else {
        Seq::empty()
    }
}

/// `m` with the bytes of `id` appended to the entry under `k`.
pub open spec fn file_id(m: Map<Seq<u8>, Seq<u8>>, k: Seq<u8>, id: u64) -> Map<Seq<u8>, Seq<u8>> {
    m.insert(k, entry_or_empty(m, k) + id_bytes(id))
}

/// `m` with `id` removed from the entry under `k`, as `codec::remove_id`
/// removes it; unchanged when there is no such entry or no such id in it.
pub open spec fn unfile_id(m: Map<Seq<u8>, Seq<u8>>, k: Seq<u8>, id: Seq<u8>) -> Map<
    Seq<u8>,
    Seq<u8>,
> {
    if m.contains_key(k) {
        match without_id(m[k], id) {
            Some(rest) => m.insert(k, rest),
            None => m,
        }
    } else {
        m
    }
}

/// Removes id bytes `id` from the index entry under `key`, as
/// `codec::remove_id` removes it, swapping the old entry for the new one.
pub fn unfile(tree: &mut sled::Tree, key: &[u8], id: &[u8]) -> (r: Result<(), ManagerError>)
    ensures
        merges_by_concat(*final(tree)) == merges_by_concat(*old(tree)),
        tree_name(*final(tree)) == tree_name(*old(tree)),
        forall|d: sled::Db| #[trigger] tree_live(d, *final(tree)) == tree_live(d, *old(tree)),
        r is Ok ==> tree_view(*final(tree)) == unfile_id(tree_view(*old(tree)), key@, id@),
        r matches Err(e) ==> e is Store,
{
    let present = store_result(tree_contains(tree, key))?;
    if present {
        let ids = store_result(tree_get(tree, key))?;
        if let Some(ids) = ids {
            let new_ids = remove_id(ids.as_slice(), id);
            if let Some(new_ids) = new_ids {
                let swapped = store_result(tree_swap(tree, key, ids.as_slice(), new_ids.as_slice()))?;
                if !swapped {
                    return Err(ManagerError::Conflict);
                }
            }
        }
    }
    Ok(())
}

/// Files id bytes `id` under `key`: merges them into an existing entry, or
/// stores them as a new entry.
pub fn file(tree: &mut sled::Tree, key: &[u8], id: &[u8]) -> (r: Result<(), ManagerError>)
    requires
        merges_by_concat(*old(tree)),
    ensures
        merges_by_concat(*final(tree)),
        tree_name(*final(tree)) == tree_name(*old(tree)),
        forall|d: sled::Db| #[trigger] tree_live(d, *final(tree)) == tree_live(d, *old(tree)),
        r is Ok ==> tree_view(*final(tree)) == tree_view(*old(tree)).insert(
            key@,
            entry_or_empty(tree_view(*old(tree)), key@) + id@,
        ),
        r matches Err(e) ==> e is Store,
{
    let present = store_result(tree_contains(tree, key))?;
    if present {
        store_result(tree_merge(tree, key, id))?;
    } else {
        store_result(tree_insert(tree, key, id))?;
        assert(Seq::<u8>::empty() + id@ =~= id@);
    }
    Ok(())
}

} // verus!
