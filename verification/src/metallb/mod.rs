//! The address pool that holds the managed range.
use crate::net::V6Net;
use vstd::prelude::*;

pub mod k8s;

pub use k8s::{K8sError, KubeClient, PoolEntry};

verus! {

/// The ranges that are not `range`.
pub open spec fn other_than(range: V6Net) -> spec_fn(V6Net) -> bool {
    |other: V6Net| other != range
}

/// The ranges of a pool after `range` was inserted: it is added at the end
/// unless the pool holds it.
pub open spec fn inserted(pool: Seq<V6Net>, range: V6Net) -> Seq<V6Net> {
    if pool.contains(range) {
        pool
    } else {
        pool.push(range)
    }
}

/// The ranges of a pool after `old` was replaced by `new`: every occurrence
/// of `old` leaves, and `new` is added at the end unless the pool holds it. A
/// pool without `old` stays as it is. Where `old` and `new` are one range,
/// that range leaves.
pub open spec fn replaced(pool: Seq<V6Net>, old: V6Net, new: V6Net) -> Seq<V6Net> {
    if !pool.contains(old) {
        pool
    } else if pool.contains(new) {
        pool.filter(other_than(old))
    } else {
        pool.filter(other_than(old)).push(new)
    }
}

/// After a replace of a range that the pool holds by another, the pool holds
/// the new range and not the old one, and every other range as before. So a
/// second replace of the same two ranges has nothing to do.
pub proof fn lemma_replaced_converges(pool: Seq<V6Net>, old: V6Net, new: V6Net)
    requires
        old != new,
        pool.contains(old),
    ensures
        replaced(pool, old, new).contains(new),
        !replaced(pool, old, new).contains(old),
        forall|range: V6Net|
            range != old && range != new ==> (#[trigger] replaced(pool, old, new).contains(range)
                <==> pool.contains(range)),
        replaced(replaced(pool, old, new), old, new) == replaced(pool, old, new),
{
    let keep = other_than(old);
    let rest = pool.filter(keep);
    let all = replaced(pool, old, new);
    if rest.contains(old) {
        let i = choose|i: int| 0 <= i < rest.len() && rest[i] == old;
        pool.lemma_filter_pred(keep, i);
    }
    if pool.contains(new) {
        let i = choose|i: int| 0 <= i < pool.len() && pool[i] == new;
        pool.lemma_filter_contains(keep, i);
    } else {
        assert(all[rest.len() as int] == new);
        if all.contains(old) {
            let i = choose|i: int| 0 <= i < all.len() && all[i] == old;
            assert(rest[i] == old);
        }
    }
    assert forall|range: V6Net| range != old && range != new implies (#[trigger] all.contains(
        range,
    ) <==> pool.contains(range)) by {
        if all.contains(range) {
            let i = choose|i: int| 0 <= i < all.len() && all[i] == range;
            assert(rest[i] == range);
            pool.lemma_filter_contains_rev(keep, range);
        }
        if pool.contains(range) {
            let i = choose|i: int| 0 <= i < pool.len() && pool[i] == range;
            pool.lemma_filter_contains(keep, i);
            let k = choose|k: int| 0 <= k < rest.len() && rest[k] == range;
            assert(all[k] == range);
        }
    }
}

/// After an insert the pool holds the range, and a second insert of it has
/// nothing to do.
pub proof fn lemma_inserted_holds(pool: Seq<V6Net>, range: V6Net)
    ensures
        inserted(pool, range).contains(range),
        inserted(inserted(pool, range), range) == inserted(pool, range),
{
    if !pool.contains(range) {
        assert(pool.push(range)[pool.len() as int] == range);
    }
}

/// Why an operation on the pool failed, in words.
#[derive(Debug)]
pub struct ConnectorError {
    msg: String,
}

impl View for ConnectorError {
    type V = Seq<char>;

    closed spec fn view(&self) -> Seq<char> {
        self.msg@
    }
}

impl ConnectorError {
    /// An error with `msg` as its message.
    pub fn new(msg: String) -> (r: ConnectorError)
        ensures
            r@ == msg@,
    {
        ConnectorError { msg }
    }

    /// The error of the cluster's pool, as its message.
    pub fn from(value: K8sError) -> (r: ConnectorError)
        ensures
            r@ == value@,
    {
        ConnectorError { msg: value.to_string() }
    }

    /// The message.
    pub fn to_string(&self) -> (text: String)
        ensures
            text@ == self@,
    {
        self.msg.clone()
    }
}

} // verus!
