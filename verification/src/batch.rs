//! A pulled batch of messages: each delivered message is acknowledged by
//! its id, and the ones that decoded are handled.

use vstd::prelude::*;

verus! {

/// The items of `s` that decoded, in order.
pub open spec fn decoded<T, E>(s: Seq<(Result<T, E>, String)>) -> Seq<T>
    decreases s.len(),
{
    if s.len() == 0 {
        Seq::empty()
    } else {
        let rest = decoded(s.drop_last());
        match s.last().0 {
            Ok(v) => rest.push(v),
            Err(_) => rest,
        }
    }
}

/// Splits a batch into the messages that decoded, in order, and the
/// acknowledgement ids of all messages, in order.
pub fn split_batch<T, E>(batch: Vec<(Result<T, E>, String)>) -> (r: (Vec<T>, Vec<String>))
    ensures
        r.0@ == decoded(batch@),
        r.1@ == batch@.map_values(|m: (Result<T, E>, String)| m.1),
{
    let ghost orig = batch@;
    let mut rest = batch;
    let mut values: Vec<T> = Vec::new();
    let mut ids: Vec<String> = Vec::new();
    let n = rest.len();
    let mut i: usize = 0;
    assert(orig.take(0) =~= Seq::<(Result<T, E>, String)>::empty());
    while i < n
        invariant
            n == orig.len(),
            i <= n,
            rest@ == orig.skip(i as int),
            values@ == decoded(orig.take(i as int)),
            ids@ == orig.take(i as int).map_values(|m: (Result<T, E>, String)| m.1),
        decreases n - i,
    {
        assert(rest@[0] == orig[i as int]);
        let (msg, id) = rest.remove(0);
        proof {
            assert(orig.take(i + 1).drop_last() =~= orig.take(i as int));
            assert(orig.take(i + 1).last() == orig[i as int]);
        }
        match msg {
            Ok(v) => values.push(v),
            Err(_) => {},
        }
        ids.push(id);
        assert(ids@ =~= orig.take(i + 1).map_values(|m: (Result<T, E>, String)| m.1));
        assert(rest@ =~= orig.skip(i + 1));
        i = i + 1;
    }
    assert(orig.take(n as int) =~= orig);
    (values, ids)
}

} // verus!
