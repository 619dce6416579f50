//! Byte formats of the stores: ids are written as eight big-endian bytes,
//! and an index entry is the concatenation of the ids filed under its key.

use vstd::prelude::*;

verus! {

/// Number of bytes that one encoded id takes.
pub const ID_WIDTH: usize = 8;

/// The big-endian bytes of `id`.
pub open spec fn id_bytes(id: u64) -> Seq<u8> {
    seq![
        (id >> 56u64) as u8,
        (id >> 48u64) as u8,
        (id >> 40u64) as u8,
        (id >> 32u64) as u8,
        (id >> 24u64) as u8,
        (id >> 16u64) as u8,
        (id >> 8u64) as u8,
        id as u8,
    ]
}

/// The id whose big-endian bytes are the first eight of `b`.
pub open spec fn id_value(b: Seq<u8>) -> u64 {
    ((b[0] as u64) << 56u64) | ((b[1] as u64) << 48u64) | ((b[2] as u64) << 40u64) | ((
    b[3] as u64) << 32u64) | ((b[4] as u64) << 24u64) | ((b[5] as u64) << 16u64) | ((b[6] as u64)
        << 8u64) | (b[7] as u64)
}

/// The `i`-th eight-byte chunk of `data`.
pub open spec fn chunk(data: Seq<u8>, i: int) -> Seq<u8> {
    data.subrange(8 * i, 8 * i + 8)
}

/// The ids held by an index entry: one per complete chunk, in order; a
/// trailing partial chunk is ignored.
pub open spec fn ids_of(data: Seq<u8>) -> Seq<u64> {
    Seq::new(data.len() / 8, |i: int| id_value(chunk(data, i)))
}

/// What the merge operator stores for a key: the old value, if any,
/// followed by the merged bytes.
pub open spec fn merged_value(old: Option<Seq<u8>>, new: Seq<u8>) -> Seq<u8> {
    match old {
        Some(o) => o + new,
        None => new,
    }
}

/// Chunk `p` of `data` exists and equals `id`.
pub open spec fn has_chunk_at(data: Seq<u8>, id: Seq<u8>, p: int) -> bool {
    0 <= p < data.len() / 8 && chunk(data, p) == id
}

/// Chunk `p` is the first chunk of `data` that equals `id`.
pub open spec fn is_first_chunk(data: Seq<u8>, id: Seq<u8>, p: int) -> bool {
    has_chunk_at(data, id, p) && forall|q: int| 0 <= q < p ==> !has_chunk_at(data, id, q)
}

/// Position (counted in chunks) of the first chunk of `data` equal to `id`.
pub open spec fn first_chunk(data: Seq<u8>, id: Seq<u8>) -> Option<int> {
    if exists|p: int| is_first_chunk(data, id, p) {
        Some(choose|p: int| is_first_chunk(data, id, p))
    } else {
        None
    }
}

/// What removing `id` from an index entry gives: `None` when no chunk equals
/// `id`; otherwise the eight bytes that start at the byte offset equal to the
/// position of the first matching chunk are cut out.
pub open spec fn without_id(data: Seq<u8>, id: Seq<u8>) -> Option<Seq<u8>> {
    match first_chunk(data, id) {
        Some(p) => Some(data.take(p) + data.skip(p + 8)),
        None => None,
    }
}

/// Lexicographic order on byte strings: `a` comes strictly before `b`.
pub open spec fn bytes_lt(a: Seq<u8>, b: Seq<u8>) -> bool
    decreases a.len(),
{
    if b.len() == 0 {
        false
    } else if a.len() == 0 {
        true
    } else if a[0] != b[0] {
        a[0] < b[0]
    } else {
        bytes_lt(a.drop_first(), b.drop_first())
    }
}

/// Three-way lexicographic order of byte strings: -1 when `a` comes first,
/// 1 when `b` does, 0 when they are equal.
pub open spec fn bytes_order(a: Seq<u8>, b: Seq<u8>) -> int {
    if bytes_lt(a, b) {
        -1
    } else if bytes_lt(b, a) {
        1
    } else {
        0
    }
}

/// Three-way order of integers.
pub open spec fn int_order(a: int, b: int) -> int {
    if a < b {
        -1
    } else if a == b {
        0
    } else {
        1
    }
}

/// The bytes that an optional byte slice holds.
pub open spec fn opt_bytes(v: Option<&[u8]>) -> Option<Seq<u8>> {
    match v {
        Some(s) => Some(s@),
        None => None,
    }
}

/// The bytes that an optional byte vector holds.
pub open spec fn opt_vec_bytes(v: Option<Vec<u8>>) -> Option<Seq<u8>> {
    match v {
        Some(s) => Some(s@),
        None => None,
    }
}

/// Decoding the bytes of an id gives the id back.
pub proof fn lemma_id_roundtrip(id: u64)
    ensures
        id_bytes(id).len() == 8,
        id_value(id_bytes(id)) == id,
{
    let b = id_bytes(id);
    assert(b[0] == (id >> 56u64) as u8);
    assert(b[7] == id as u8);
    assert((((id >> 56u64) as u8 as u64) << 56u64) | (((id >> 48u64) as u8 as u64) << 48u64) | (((
    id >> 40u64) as u8 as u64) << 40u64) | (((id >> 32u64) as u8 as u64) << 32u64) | (((id
        >> 24u64) as u8 as u64) << 24u64) | (((id >> 16u64) as u8 as u64) << 16u64) | (((id
        >> 8u64) as u8 as u64) << 8u64) | (id as u8 as u64) == id) by (bit_vector);
}

/// Two ids with the same bytes are the same id.
pub proof fn lemma_id_bytes_injective(a: u64, b: u64)
    ensures
        id_bytes(a) == id_bytes(b) ==> a == b,
{
    lemma_id_roundtrip(a);
    lemma_id_roundtrip(b);
}

/// Eight bytes are the bytes of the id they decode to.
pub proof fn lemma_bytes_roundtrip(b: Seq<u8>)
    requires
        b.len() == 8,
    ensures
        id_bytes(id_value(b)) == b,
{
    let (b0, b1, b2, b3, b4, b5, b6, b7) = (b[0], b[1], b[2], b[3], b[4], b[5], b[6], b[7]);
    let v = id_value(b);
    assert(v == ((b0 as u64) << 56u64) | ((b1 as u64) << 48u64) | ((b2 as u64) << 40u64) | ((
    b3 as u64) << 32u64) | ((b4 as u64) << 24u64) | ((b5 as u64) << 16u64) | ((b6 as u64)
        << 8u64) | (b7 as u64));
    assert({
        let w = ((b0 as u64) << 56u64) | ((b1 as u64) << 48u64) | ((b2 as u64) << 40u64) | ((
        b3 as u64) << 32u64) | ((b4 as u64) << 24u64) | ((b5 as u64) << 16u64) | ((b6 as u64)
            << 8u64) | (b7 as u64);
        &&& (w >> 56u64) as u8 == b0
        &&& (w >> 48u64) as u8 == b1
        &&& (w >> 40u64) as u8 == b2
        &&& (w >> 32u64) as u8 == b3
        &&& (w >> 24u64) as u8 == b4
        &&& (w >> 16u64) as u8 == b5
        &&& (w >> 8u64) as u8 == b6
        &&& w as u8 == b7
    }) by (bit_vector);
    assert(id_bytes(v) =~= b);
}

/// The ids of a concatenation are the ids of its parts, when the first part
/// is made of whole chunks.
pub proof fn lemma_ids_of_concat(a: Seq<u8>, b: Seq<u8>)
    requires
        a.len() % 8 == 0,
    ensures
        ids_of(a + b) == ids_of(a) + ids_of(b),
{
    let na = a.len() / 8;
    assert((a + b).len() / 8 == na + b.len() / 8);
    assert forall|i: int| 0 <= i < (a + b).len() / 8 implies #[trigger] ids_of(a + b)[i] == (
    ids_of(a) + ids_of(b))[i] by {
        if i < na {
            assert(chunk(a + b, i) =~= chunk(a, i));
        } else {
            assert(chunk(a + b, i) =~= chunk(b, i - na));
        }
    }
    assert(ids_of(a + b) =~= ids_of(a) + ids_of(b));
}

/// Appending the bytes of an id to an index entry made of whole chunks adds
/// that id at the end of the entry's ids.
pub proof fn lemma_ids_of_append(data: Seq<u8>, id: u64)
    requires
        data.len() % 8 == 0,
    ensures
        ids_of(data + id_bytes(id)) == ids_of(data).push(id),
        (data + id_bytes(id)).len() % 8 == 0,
{
    lemma_ids_of_concat(data, id_bytes(id));
    lemma_id_roundtrip(id);
    let s = id_bytes(id);
    assert(chunk(s, 0) =~= s);
    assert(ids_of(s) =~= seq![id]);
}

/// The bytes of a list of ids: the big-endian bytes of each, in order.
pub open spec fn ids_bytes(ids: Seq<u64>) -> Seq<u8>
    decreases ids.len(),
{
    if ids.len() == 0 {
        Seq::empty()
    } else {
        ids_bytes(ids.drop_last()) + id_bytes(ids.last())
    }
}

/// The bytes of a list of ids are whole chunks that read back as the list.
pub proof fn lemma_ids_bytes_roundtrip(ids: Seq<u64>)
    ensures
        ids_bytes(ids).len() == 8 * ids.len(),
        ids_of(ids_bytes(ids)) == ids,
    decreases ids.len(),
{
    if ids.len() == 0 {
        assert(ids_of(Seq::<u8>::empty()) =~= Seq::<u64>::empty());
    } else {
        lemma_ids_bytes_roundtrip(ids.drop_last());
        lemma_ids_of_append(ids_bytes(ids.drop_last()), ids.last());
        assert(ids.drop_last().push(ids.last()) =~= ids);
    }
}

/// The bytes of two lists of ids, one after the other, are the bytes of the
/// joined list.
pub proof fn lemma_ids_bytes_concat(a: Seq<u64>, b: Seq<u64>)
    ensures
        ids_bytes(a + b) == ids_bytes(a) + ids_bytes(b),
    decreases b.len(),
{
    if b.len() == 0 {
        assert(a + b =~= a);
        assert(ids_bytes(a) + ids_bytes(b) =~= ids_bytes(a));
    } else {
        lemma_ids_bytes_concat(a, b.drop_last());
        assert((a + b).drop_last() =~= a + b.drop_last());
        assert((a + b).last() == b.last());
        assert(ids_bytes(a + b) =~= ids_bytes(a) + ids_bytes(b));
    }
}

/// Merging the bytes of ids `b` into an entry holding the bytes of ids `a`
/// stores the bytes of `a + b`, so the entry then lists every earlier id, in
/// order, followed by `b`; merging into no entry stores the bytes of `b`.
pub proof fn law_merge_appends_ids(a: Seq<u64>, b: Seq<u64>)
    ensures
        merged_value(Some(ids_bytes(a)), ids_bytes(b)) == ids_bytes(a + b),
        ids_of(merged_value(Some(ids_bytes(a)), ids_bytes(b))) == a + b,
        merged_value(None, ids_bytes(b)) == ids_bytes(b),
        ids_of(merged_value(None, ids_bytes(b))) == b,
{
    lemma_ids_bytes_concat(a, b);
    lemma_ids_bytes_roundtrip(a + b);
    lemma_ids_bytes_roundtrip(b);
}

/// Ids in byte order are ids in numeric order: the big-endian bytes of `a`
/// come before those of `b` exactly when `a < b`.
pub proof fn law_id_bytes_order(a: u64, b: u64)
    ensures
        bytes_lt(id_bytes(a), id_bytes(b)) <==> a < b,
{
    let x = id_bytes(a);
    let y = id_bytes(b);
    let x1 = x.drop_first();
    let y1 = y.drop_first();
    let x2 = x1.drop_first();
    let y2 = y1.drop_first();
    let x3 = x2.drop_first();
    let y3 = y2.drop_first();
    let x4 = x3.drop_first();
    let y4 = y3.drop_first();
    let x5 = x4.drop_first();
    let y5 = y4.drop_first();
    let x6 = x5.drop_first();
    let y6 = y5.drop_first();
    let x7 = x6.drop_first();
    let y7 = y6.drop_first();
    assert(x7.drop_first() =~= Seq::<u8>::empty());
    assert(y7.drop_first() =~= Seq::<u8>::empty());
    assert(bytes_lt(x7, y7) <==> (a & 0xffu64) < (b & 0xffu64)) by {
        assert(x7.len() == 1 && x7[0] == a as u8);
        assert(y7.len() == 1 && y7[0] == b as u8);
        assert(bytes_lt(x7.drop_first(), y7.drop_first()) == false);
        assert((a as u8) < (b as u8) <==> (a & 0xffu64) < (b & 0xffu64)) by (bit_vector);
    }
    assert(bytes_lt(x6, y6) <==> (a & 0xffffu64) < (b & 0xffffu64)) by {
        assert(((a >> 8u64) as u8) < ((b >> 8u64) as u8) || ((a >> 8u64) as u8 == (b >> 8u64) as u8
            && (a & 0xffu64) < (b & 0xffu64)) <==> (a & 0xffffu64) < (b & 0xffffu64)) by (bit_vector);
    }
    assert(bytes_lt(x5, y5) <==> (a & 0xffffffu64) < (b & 0xffffffu64)) by {
        assert(((a >> 16u64) as u8) < ((b >> 16u64) as u8) || ((a >> 16u64) as u8 == (b >> 16u64) as u8
            && (a & 0xffffu64) < (b & 0xffffu64)) <==> (a & 0xffffffu64) < (b & 0xffffffu64)) by (bit_vector);
    }
    assert(bytes_lt(x4, y4) <==> (a & 0xffffffffu64) < (b & 0xffffffffu64)) by {
        assert(((a >> 24u64) as u8) < ((b >> 24u64) as u8) || ((a >> 24u64) as u8 == (b >> 24u64) as u8
            && (a & 0xffffffu64) < (b & 0xffffffu64)) <==> (a & 0xffffffffu64) < (b & 0xffffffffu64)) by (bit_vector);
    }
    assert(bytes_lt(x3, y3) <==> (a & 0xffffffffffu64) < (b & 0xffffffffffu64)) by {
        assert(((a >> 32u64) as u8) < ((b >> 32u64) as u8) || ((a >> 32u64) as u8 == (b >> 32u64) as u8
            && (a & 0xffffffffu64) < (b & 0xffffffffu64)) <==> (a & 0xffffffffffu64) < (b & 0xffffffffffu64)) by (bit_vector);
    }
    assert(bytes_lt(x2, y2) <==> (a & 0xffffffffffffu64) < (b & 0xffffffffffffu64)) by {
        assert(((a >> 40u64) as u8) < ((b >> 40u64) as u8) || ((a >> 40u64) as u8 == (b >> 40u64) as u8
            && (a & 0xffffffffffu64) < (b & 0xffffffffffu64)) <==> (a & 0xffffffffffffu64) < (b & 0xffffffffffffu64)) by (bit_vector);
    }
    assert(bytes_lt(x1, y1) <==> (a & 0xffffffffffffffu64) < (b & 0xffffffffffffffu64)) by {
        assert(((a >> 48u64) as u8) < ((b >> 48u64) as u8) || ((a >> 48u64) as u8 == (b >> 48u64) as u8
            && (a & 0xffffffffffffu64) < (b & 0xffffffffffffu64)) <==> (a & 0xffffffffffffffu64) < (b & 0xffffffffffffffu64)) by (bit_vector);
    }
    assert(bytes_lt(x, y) <==> a < b) by {
        assert(((a >> 56u64) as u8) < ((b >> 56u64) as u8) || ((a >> 56u64) as u8 == (b >> 56u64) as u8
            && (a & 0xffffffffffffffu64) < (b & 0xffffffffffffffu64)) <==> a < b) by (bit_vector);
    }
}

/// Only one chunk can be the first one that matches.
pub proof fn lemma_first_chunk_is(data: Seq<u8>, id: Seq<u8>, p: int)
    requires
        is_first_chunk(data, id, p),
    ensures
        first_chunk(data, id) == Some(p),
{
    let c = choose|q: int| is_first_chunk(data, id, q);
    assert(is_first_chunk(data, id, c));
    if c < p {
        assert(!has_chunk_at(data, id, c));
    }
    if p < c {
        assert(!has_chunk_at(data, id, p));
    }
}

/// When the id to remove is the first chunk of the entry, removing it drops
/// exactly that id from the entry's ids.
pub proof fn lemma_without_id_at_front(data: Seq<u8>, id: u64)
    requires
        first_chunk(data, id_bytes(id)) == Some(0int),
    ensures
        without_id(data, id_bytes(id)) matches Some(rest) && ids_of(rest) == ids_of(data).drop_first(),
{
    let rest = data.take(0) + data.skip(8);
    assert(rest =~= data.skip(8));
    let c = choose|q: int| is_first_chunk(data, id_bytes(id), q);
    assert(is_first_chunk(data, id_bytes(id), c));
    assert(data.len() >= 8);
    assert(ids_of(rest).len() == ids_of(data).len() - 1);
    assert forall|i: int| 0 <= i < ids_of(rest).len() implies #[trigger] ids_of(rest)[i]
        == ids_of(data).drop_first()[i] by {
        assert(chunk(rest, i) =~= chunk(data, i + 1));
    }
    assert(ids_of(rest) =~= ids_of(data).drop_first());
}

/// Writes the big-endian bytes of `id`.
pub fn id_to_bytes(id: u64) -> (r: Vec<u8>)
    ensures
        r@ == id_bytes(id),
{
    let mut r: Vec<u8> = Vec::with_capacity(ID_WIDTH);
    r.push((id >> 56u64) as u8);
    r.push((id >> 48u64) as u8);
    r.push((id >> 40u64) as u8);
    r.push((id >> 32u64) as u8);
    r.push((id >> 24u64) as u8);
    r.push((id >> 16u64) as u8);
    r.push((id >> 8u64) as u8);
    r.push(id as u8);
    assert(r@ =~= id_bytes(id));
    r
}

/// Reads the id whose big-endian bytes start at `start`.
pub fn id_from_bytes(data: &[u8], start: usize) -> (r: u64)
    requires
        start + 8 <= data@.len(),
    ensures
        r == id_value(data@.subrange(start as int, start + 8)),
{
    let s = Ghost(data@.subrange(start as int, start + 8));
    assert(s@[0] == data@[start as int]);
    assert(s@[7] == data@[start + 7]);
    ((data[start] as u64) << 56u64) | ((data[start + 1] as u64) << 48u64) | ((data[start
        + 2] as u64) << 40u64) | ((data[start + 3] as u64) << 32u64) | ((data[start + 4] as u64)
        << 24u64) | ((data[start + 5] as u64) << 16u64) | ((data[start + 6] as u64) << 8u64) | (
    data[start + 7] as u64)
}

/// The merge operator of the index trees: the old value, if any, followed
/// by the merged bytes. It never deletes a key.
pub fn merge(_key: &[u8], old_v: Option<&[u8]>, new_v: &[u8]) -> (r: Option<Vec<u8>>)
    ensures
        r matches Some(v) && v@ == merged_value(opt_bytes(old_v), new_v@),
{
    let mut old_vec: Vec<u8> = Vec::new();
    match old_v {
        Some(v) => append_bytes(&mut old_vec, v),
        None => {},
    }
    append_bytes(&mut old_vec, new_v);
    Some(old_vec)
}

/// Appends the bytes of `src` to `out`.
pub fn append_bytes(out: &mut Vec<u8>, src: &[u8])
    ensures
        final(out)@ == old(out)@ + src@,
{
    append_range(out, src, 0, src.len());
    assert(src@.subrange(0, src@.len() as int) =~= src@);
}

/// Appends the bytes of `src` from `start` up to `end` to `out`.
fn append_range(out: &mut Vec<u8>, src: &[u8], start: usize, end: usize)
    requires
        start <= end <= src@.len(),
    ensures
        final(out)@ == old(out)@ + src@.subrange(start as int, end as int),
{
    let mut i = start;
    while i < end
        invariant
            start <= i <= end <= src@.len(),
            out@ == old(out)@ + src@.subrange(start as int, i as int),
        decreases end - i,
    {
        out.push(src[i]);
        i = i + 1;
        assert(out@ =~= old(out)@ + src@.subrange(start as int, i as int));
    }
}

/// Whether the eight bytes of `data` that start at `start` equal `id`.
fn chunk_matches(data: &[u8], start: usize, id: &[u8]) -> (r: bool)
    requires
        start + 8 <= data@.len(),
    ensures
        r == (data@.subrange(start as int, start + 8) == id@),
{
    if id.len() != ID_WIDTH {
        return false;
    }
    let mut j: usize = 0;
    while j < ID_WIDTH
        invariant
            j <= 8,
            start + 8 <= data@.len(),
            data@.len() == data.len(),
            id@.len() == 8,
            forall|k: int| 0 <= k < j ==> data@[start + k] == id@[k],
        decreases 8 - j,
    {
        if data[start + j] != id[j] {
            assert(data@.subrange(start as int, start + 8)[j as int] != id@[j as int]);
            return false;
        }
        j = j + 1;
    }
    assert(data@.subrange(start as int, start + 8) =~= id@);
    true
}

/// Removes `id` from an index entry. The entry is read as a list of
/// eight-byte chunks; when one equals `id`, the eight bytes that start at the
/// byte offset equal to the position of the first such chunk are removed and
/// the rest is returned. `None` when no chunk equals `id`.
pub fn remove_id(data: &[u8], id: &[u8]) -> (r: Option<Vec<u8>>)
    ensures
        opt_vec_bytes(r) == without_id(data@, id@),
{
    let n = data.len() / ID_WIDTH;
    let mut p: usize = 0;
    while p < n
        invariant
            n == data@.len() / 8,
            data@.len() == data.len(),
            p <= n,
            forall|q: int| 0 <= q < p ==> !has_chunk_at(data@, id@, q),
        decreases n - p,
    {
        if chunk_matches(data, p * ID_WIDTH, id) {
            proof {
                assert(has_chunk_at(data@, id@, p as int));
                assert(is_first_chunk(data@, id@, p as int));
                lemma_first_chunk_is(data@, id@, p as int);
            }
            let mut out: Vec<u8> = Vec::new();
            append_range(&mut out, data, 0, p);
            append_range(&mut out, data, p + ID_WIDTH, data.len());
            assert(out@ =~= data@.take(p as int) + data@.skip(p + 8));
            return Some(out);
        }
        p = p + 1;
    }
    assert(!exists|q: int| is_first_chunk(data@, id@, q));
    None
}

/// The ids held by an index entry, in order; a trailing partial chunk is
/// ignored.
pub fn ids_to_vec(data: &[u8]) -> (r: Vec<u64>)
    ensures
        r@ == ids_of(data@),
{
    let n = data.len() / ID_WIDTH;
    let mut r: Vec<u64> = Vec::new();
    let mut i: usize = 0;
    while i < n
        invariant
            n == data@.len() / 8,
            data@.len() == data.len(),
            i <= n,
            r@.len() == i,
            forall|k: int| 0 <= k < i ==> r@[k] == id_value(chunk(data@, k)),
        decreases n - i,
    {
        let v = id_from_bytes(data, i * ID_WIDTH);
        r.push(v);
        i = i + 1;
    }
    assert(r@ =~= ids_of(data@));
    r
}

/// Comparing after a common prefix is comparing the rests.
proof fn lemma_bytes_lt_skip(a: Seq<u8>, b: Seq<u8>, i: int)
    requires
        0 <= i < a.len(),
        i < b.len(),
        a[i] == b[i],
    ensures
        bytes_lt(a.skip(i), b.skip(i)) == bytes_lt(a.skip(i + 1), b.skip(i + 1)),
{
    assert(a.skip(i).drop_first() =~= a.skip(i + 1));
    assert(b.skip(i).drop_first() =~= b.skip(i + 1));
}

/// No byte string comes before itself.
pub proof fn lemma_bytes_lt_irreflexive(a: Seq<u8>)
    ensures
        !bytes_lt(a, a),
    decreases a.len(),
{
    if a.len() > 0 {
        lemma_bytes_lt_irreflexive(a.drop_first());
    }
}

/// Of two different byte strings, one comes before the other, and not both.
pub proof fn lemma_bytes_lt_total(a: Seq<u8>, b: Seq<u8>)
    ensures
        a != b ==> bytes_lt(a, b) || bytes_lt(b, a),
        !(bytes_lt(a, b) && bytes_lt(b, a)),
    decreases a.len(),
{
    if a.len() > 0 && b.len() > 0 && a[0] == b[0] {
        lemma_bytes_lt_total(a.drop_first(), b.drop_first());
        if a.drop_first() == b.drop_first() {
            assert(a =~= seq![a[0]] + a.drop_first());
            assert(b =~= seq![b[0]] + b.drop_first());
        }
    }
    if a.len() == 0 && b.len() == 0 {
        assert(a =~= b);
    }
}

/// The lexicographic order is transitive.
pub proof fn lemma_bytes_lt_transitive(a: Seq<u8>, b: Seq<u8>, c: Seq<u8>)
    requires
        bytes_lt(a, b),
        bytes_lt(b, c),
    ensures
        bytes_lt(a, c),
    decreases a.len(),
{
    if a.len() > 0 && a[0] == b[0] && b[0] == c[0] {
        lemma_bytes_lt_transitive(a.drop_first(), b.drop_first(), c.drop_first());
    }
}

/// Compares two byte strings lexicographically: -1, 0 or 1.
pub fn compare_bytes(a: &[u8], b: &[u8]) -> (r: i8)
    ensures
        r == bytes_order(a@, b@),
{
    let mut i: usize = 0;
    assert(a@.skip(0) =~= a@);
    assert(b@.skip(0) =~= b@);
    while i < a.len() && i < b.len()
        invariant
            i <= a@.len(),
            i <= b@.len(),
            a@.take(i as int) == b@.take(i as int),
            bytes_lt(a@, b@) == bytes_lt(a@.skip(i as int), b@.skip(i as int)),
            bytes_lt(b@, a@) == bytes_lt(b@.skip(i as int), a@.skip(i as int)),
        decreases a@.len() - i,
    {
        if a[i] < b[i] {
            return -1;
        }
        if a[i] > b[i] {
            return 1;
        }
        proof {
            lemma_bytes_lt_skip(a@, b@, i as int);
            lemma_bytes_lt_skip(b@, a@, i as int);
            assert(a@.take(i + 1) =~= a@.take(i as int).push(a@[i as int]));
            assert(b@.take(i + 1) =~= b@.take(i as int).push(b@[i as int]));
        }
        i = i + 1;
    }
    if a.len() < b.len() {
        -1
    } else if a.len() > b.len() {
        1
    } else {
        proof {
            assert(a@ =~= a@.take(i as int));
            assert(b@ =~= b@.take(i as int));
            lemma_bytes_lt_irreflexive(a@);
        }
        0
    }
}

/// Compares two unsigned integers: -1, 0 or 1.
pub fn order_u64(a: u64, b: u64) -> (r: i8)
    ensures
        r == int_order(a as int, b as int),
{
    if a < b {
        -1
    } else if a == b {
        0
    } else {
        1
    }
}

/// Compares two signed integers: -1, 0 or 1.
pub fn order_i64(a: i64, b: i64) -> (r: i8)
    ensures
        r == int_order(a as int, b as int),
{
    if a < b {
        -1
    } else if a == b {
        0
    } else {
        1
    }
}

} // verus!
