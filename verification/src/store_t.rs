//! The trusted side of the `sled` database: the declared `sled` types, the
//! names that the contracts speak of, and one wrapper for each call into
//! `sled` or std that the library makes. Verus believes these contracts; each
//! doc comment says what the call is claimed to do.

use crate::codec::{merge, merged_value, opt_vec_bytes};
use crate::store::entries_of;
use vstd::prelude::*;
use vstd::utf8::{decode_utf8, valid_utf8};

verus! {

#[verifier::external_type_specification]
#[verifier::external_body]
pub struct ExSledDb(sled::Db);

#[verifier::external_type_specification]
#[verifier::external_body]
pub struct ExSledTree(sled::Tree);

#[verifier::external_type_specification]
#[verifier::external_body]
pub struct ExSledError(sled::Error);

/// What a tree holds: each key with its value.
pub uninterp spec fn tree_view(tree: sled::Tree) -> Map<Seq<u8>, Seq<u8>>;

/// Whether the tree's merge operator is `codec::merge`, so that a merge
/// appends the merged bytes to the key's old value.
pub uninterp spec fn merges_by_concat(tree: sled::Tree) -> bool;

/// Whether the database holds a tree called `name`.
pub uninterp spec fn has_tree(db: sled::Db, name: Seq<char>) -> bool;

/// Whether the database's table of open trees holds a tree called `name`:
/// `open_tree` puts the name there, and `drop_tree` takes it out.
pub uninterp spec fn tree_in_table(db: sled::Db, name: Seq<char>) -> bool;

/// The ids that the database's id counter has handed out.
pub uninterp spec fn issued_ids(db: sled::Db) -> Set<u64>;

/// The path that the database was opened under.
pub uninterp spec fn db_path_of(db: sled::Db) -> Seq<char>;

/// The name of the tree that a handle refers to.
pub uninterp spec fn tree_name(tree: sled::Tree) -> Seq<char>;

/// Whether `tree` is a handle on a tree of `db` that `db` has not dropped
/// since. Through a handle on a dropped tree, `sled`'s iterator gives the
/// same error again and again and never ends.
pub uninterp spec fn tree_live(db: sled::Db, tree: sled::Tree) -> bool;

/// A sequence of tree entries as `tree_entries` hands them out.
pub type Entries = Vec<Result<(Vec<u8>, Vec<u8>), sled::Error>>;

/// `sled::open`: opens, or creates, the database stored under `path`. On
/// success the database is the one under `path`; nothing more is stated of
/// it, which depends on what is on disk.
#[verifier::external_body]
pub(crate) fn open_db(path: &str) -> (r: Result<sled::Db, sled::Error>)
    ensures
        r matches Ok(db) ==> db_path_of(db) == path@,
{
    sled::open(path)
}

/// `sled::Db::open_tree`: opens the tree called `name`, or creates it when
/// the database holds none of that name, in which case it is empty. Of a
/// tree that existed, nothing is stated of what it holds, which depends on
/// what is on disk. On success the database holds the tree, and the handle
/// is a live handle on the tree called `name`, and the table of open trees
/// holds `name`; its other trees and the table's other names stay as they
/// were, and handles that were live stay so.
#[verifier::external_body]
pub(crate) fn open_tree(db: &mut sled::Db, name: &str) -> (r: Result<sled::Tree, sled::Error>)
    ensures
        r matches Ok(t) ==> (!has_tree(*old(db), name@) ==> tree_view(t) =~= Map::empty()),
        r matches Ok(t) ==> tree_name(t) == name@ && tree_live(*final(db), t),
        r is Ok ==> has_tree(*final(db), name@),
        r is Ok ==> tree_in_table(*final(db), name@),
        r is Err ==> tree_in_table(*final(db), name@) == tree_in_table(*old(db), name@),
        forall|n: Seq<char>|
            n != name@ ==> #[trigger] tree_in_table(*final(db), n) == tree_in_table(*old(db), n),
        forall|t: sled::Tree| tree_live(*old(db), t) ==> #[trigger] tree_live(*final(db), t),
        db_path_of(*final(db)) == db_path_of(*old(db)),
        forall|n: Seq<char>| n != name@ ==> has_tree(*final(db), n) == has_tree(*old(db), n),
        issued_ids(*final(db)) == issued_ids(*old(db)),
{
    db.open_tree(name)
}

/// `sled::Db::drop_tree`: removes the tree called `name` from the database.
/// `Ok(true)` when it was removed: the database then holds no tree of that
/// name. `Ok(false)` exactly when the database's table of open trees held
/// none of that name; nothing is then stated of the stored tree, since a
/// tree of that name may still be stored (a drop that failed part-way leaves
/// it so). On success the table no longer holds `name`. Whatever the
/// outcome, the other trees and the table's other names stay as they were,
/// and handles on other trees stay live; of handles on the tree called
/// `name`, nothing is stated.
#[verifier::external_body]
pub(crate) fn drop_tree(db: &mut sled::Db, name: &str) -> (r: Result<bool, sled::Error>)
    ensures
        r matches Ok(true) ==> !has_tree(*final(db), name@),
        r matches Ok(false) ==> !tree_in_table(*old(db), name@),
        r is Ok ==> !tree_in_table(*final(db), name@),
        forall|n: Seq<char>|
            n != name@ ==> #[trigger] tree_in_table(*final(db), n) == tree_in_table(*old(db), n),
        forall|t: sled::Tree|
            tree_name(t) != name@ ==> #[trigger] tree_live(*final(db), t) == tree_live(*old(db), t),
        db_path_of(*final(db)) == db_path_of(*old(db)),
        forall|n: Seq<char>| n != name@ ==> has_tree(*final(db), n) == has_tree(*old(db), n),
        issued_ids(*final(db)) == issued_ids(*old(db)),
{
    db.drop_tree(name)
}

/// `sled::Db::generate_id`: an id from the database's counter, which sled
/// documents as never handing out the same id twice. On success the id is
/// none of those handed out before, and counts as handed out from then on;
/// ids handed out stay so. Its value is not stated, which depends on the
/// counter on disk.
#[verifier::external_body]
pub(crate) fn generate_id(db: &mut sled::Db) -> (r: Result<u64, sled::Error>)
    ensures
        issued_ids(*old(db)).subset_of(issued_ids(*final(db))),
        r matches Ok(v) ==> !issued_ids(*old(db)).contains(v) && issued_ids(*final(db)).contains(v),
        forall|n: Seq<char>| #[trigger] has_tree(*final(db), n) == has_tree(*old(db), n),
        forall|n: Seq<char>| #[trigger] tree_in_table(*final(db), n) == tree_in_table(*old(db), n),
        forall|t: sled::Tree| #[trigger] tree_live(*final(db), t) == tree_live(*old(db), t),
        db_path_of(*final(db)) == db_path_of(*old(db)),
{
    db.generate_id()
}

/// `sled::Tree::set_merge_operator`, installing `codec::merge`: what the
/// tree holds is unchanged, and later merges append bytes.
#[verifier::external_body]
pub(crate) fn set_concat_merge(tree: &mut sled::Tree)
    ensures
        tree_view(*final(tree)) == tree_view(*old(tree)),
        merges_by_concat(*final(tree)),
        tree_name(*final(tree)) == tree_name(*old(tree)),
        forall|d: sled::Db| #[trigger] tree_live(d, *final(tree)) == tree_live(d, *old(tree)),
{
    tree.set_merge_operator(merge);
}

/// `sled::Tree::get`: on success, the value stored under `key`, if any.
#[verifier::external_body]
pub(crate) fn tree_get(tree: &sled::Tree, key: &[u8]) -> (r: Result<Option<Vec<u8>>, sled::Error>)
    ensures
        r matches Ok(v) ==> opt_vec_bytes(v) == tree_view(*tree).get(key@),
{
    tree.get(key).map(|v| v.map(|b| b.to_vec()))
}

/// `sled::Tree::contains_key`: on success, whether a value is stored under
/// `key`.
#[verifier::external_body]
pub(crate) fn tree_contains(tree: &sled::Tree, key: &[u8]) -> (r: Result<bool, sled::Error>)
    ensures
        r matches Ok(b) ==> b == tree_view(*tree).contains_key(key@),
{
    tree.contains_key(key)
}

/// `sled::Tree::insert`: on success, `value` is stored under `key`. The
/// previous value that `sled` returns is dropped.
#[verifier::external_body]
pub(crate) fn tree_insert(tree: &mut sled::Tree, key: &[u8], value: &[u8]) -> (r: Result<
    (),
    sled::Error,
>)
    ensures
        merges_by_concat(*final(tree)) == merges_by_concat(*old(tree)),
        tree_name(*final(tree)) == tree_name(*old(tree)),
        forall|d: sled::Db| #[trigger] tree_live(d, *final(tree)) == tree_live(d, *old(tree)),
        r is Ok ==> tree_view(*final(tree)) == tree_view(*old(tree)).insert(key@, value@),
{
    tree.insert(key, value).map(|_| ())
}

/// `sled::Tree::remove`: on success, nothing is stored under `key` any more.
#[verifier::external_body]
pub(crate) fn tree_remove(tree: &mut sled::Tree, key: &[u8]) -> (r: Result<(), sled::Error>)
    ensures
        merges_by_concat(*final(tree)) == merges_by_concat(*old(tree)),
        tree_name(*final(tree)) == tree_name(*old(tree)),
        forall|d: sled::Db| #[trigger] tree_live(d, *final(tree)) == tree_live(d, *old(tree)),
        r is Ok ==> tree_view(*final(tree)) == tree_view(*old(tree)).remove(key@),
{
    tree.remove(key).map(|_| ())
}

/// `sled::Tree::merge`: on success, and with `codec::merge` installed, the
/// value under `key` becomes its old value, if any, followed by `value`.
#[verifier::external_body]
pub(crate) fn tree_merge(tree: &mut sled::Tree, key: &[u8], value: &[u8]) -> (r: Result<
    (),
    sled::Error,
>)
    ensures
        merges_by_concat(*final(tree)) == merges_by_concat(*old(tree)),
        tree_name(*final(tree)) == tree_name(*old(tree)),
        forall|d: sled::Db| #[trigger] tree_live(d, *final(tree)) == tree_live(d, *old(tree)),
        r is Ok && merges_by_concat(*old(tree)) ==> tree_view(*final(tree)) == tree_view(
            *old(tree),
        ).insert(key@, merged_value(tree_view(*old(tree)).get(key@), value@)),
{
    tree.merge(key, value).map(|_| ())
}

/// `sled::Tree::compare_and_swap` with an expected and a new value:
/// `Ok(true)` when `expected` was stored under `key` and `new_value` now is;
/// `Ok(false)` when something else was stored there, which stays.
#[verifier::external_body]
pub(crate) fn tree_swap(tree: &mut sled::Tree, key: &[u8], expected: &[u8], new_value: &[u8]) -> (r:
    Result<bool, sled::Error>)
    ensures
        merges_by_concat(*final(tree)) == merges_by_concat(*old(tree)),
        tree_name(*final(tree)) == tree_name(*old(tree)),
        forall|d: sled::Db| #[trigger] tree_live(d, *final(tree)) == tree_live(d, *old(tree)),
        r matches Ok(true) ==> tree_view(*old(tree)).get(key@) == Some(expected@) && tree_view(
            *final(tree),
        ) == tree_view(*old(tree)).insert(key@, new_value@),
        r matches Ok(false) ==> tree_view(*old(tree)).get(key@) != Some(expected@) && tree_view(
            *final(tree),
        ) == tree_view(*old(tree)),
{
    match tree.compare_and_swap(key, Some(expected), Some(new_value)) {
        Ok(Ok(())) => Ok(true),
        Ok(Err(_)) => Ok(false),
        Err(e) => Err(e),
    }
}

/// `sled::Tree::iter`, collected, on a live handle of `db`: the tree's
/// entries in ascending key order, each either a key with its value or the
/// error met reading it. When no entry is an error, every key of the tree is
/// listed. `db` only tells which handles are live. The collection returns
/// once the iterator ends; on a live handle it ends unless reading the disk
/// keeps failing, which nothing here can rule out.
#[verifier::external_body]
#[allow(unused_variables)]
pub(crate) fn tree_entries(db: &sled::Db, tree: &sled::Tree) -> (r: Entries)
    requires
        tree_live(*db, *tree),
    ensures
        entries_of(tree_view(*tree), r@),
{
    tree.iter().map(|e| e.map(|(k, v)| (k.to_vec(), v.to_vec()))).collect()
}

/// `String::from_utf8`: the text that `bytes` encode, when they are valid
/// UTF-8.
#[verifier::external_body]
pub(crate) fn string_from_utf8(bytes: Vec<u8>) -> (r: Option<String>)
    ensures
        r is Some <==> valid_utf8(bytes@),
        r matches Some(s) ==> s@ == decode_utf8(bytes@),
{
    String::from_utf8(bytes).ok()
}

} // verus!
