//! The concurrent tables of the server, as maps.
//!
//! A table is changed through an exclusive borrow only, so what it holds changes
//! exactly as its functions say.

use vstd::prelude::*;

verus! {

#[verifier::external_type_specification]
#[verifier::external_body]
#[verifier::reject_recursive_types(K)]
#[verifier::reject_recursive_types(V)]
#[verifier::reject_recursive_types(S)]
pub struct ExDashMap<K, V, S>(dashmap::DashMap<K, V, S>);

/// What an IPv4 table holds: the session that owns each address.
pub uninterp spec fn owners4(t: dashmap::DashMap<u32, u64>) -> Map<u32, u64>;

/// What an IPv6 table holds: the session that owns each address.
pub uninterp spec fn owners6(t: dashmap::DashMap<u128, u64>) -> Map<u128, u64>;

/// What a token table holds: the place of each token's record.
pub uninterp spec fn places(t: dashmap::DashMap<String, u64>) -> Map<Seq<char>, u64>;

/// Calls `dashmap::DashMap::new`: an empty table.
#[verifier::external_body]
pub(crate) fn new4() -> (t: dashmap::DashMap<u32, u64>)
    ensures
        (owners4(t) == Map::<u32, u64>::empty()),
{
    dashmap::DashMap::new()
}

/// Calls `dashmap::DashMap::insert`: the key now maps to the value.
#[verifier::external_body]
pub(crate) fn insert4(t: &mut dashmap::DashMap<u32, u64>, k: u32, v: u64)
    ensures
        owners4(*final(t)) == owners4(*old(t)).insert(k, v),
{
    t.insert(k, v);
}

/// Calls `dashmap::DashMap::remove`: the key maps to nothing now.
#[verifier::external_body]
pub(crate) fn remove4(t: &mut dashmap::DashMap<u32, u64>, k: u32)
    ensures
        owners4(*final(t)) == owners4(*old(t)).remove(k),
{
    t.remove(&k);
}

/// Calls `dashmap::DashMap::get`: what the key maps to.
#[verifier::external_body]
pub(crate) fn get4(t: &dashmap::DashMap<u32, u64>, k: u32) -> (r: Option<u64>)
    ensures
        r == owners4(*t).get(k),
{
    t.get(&k).map(|e| *e.value())
}

/// Whether a list names each entry of a map exactly once, in some order.
pub open spec fn lists4(l: Seq<(u32, u64)>, m: Map<u32, u64>) -> bool {
    &&& forall|i: int|
        0 <= i < l.len() ==> m.dom().contains((#[trigger] l[i]).0) && m[l[i].0] == l[i].1
    &&& forall|i: int, j: int| 0 <= i < j < l.len() ==> (#[trigger] l[i]).0 != (#[trigger] l[j]).0
    &&& forall|k: u32|
        #[trigger]
        m.dom().contains(k) ==> exists|i: int| 0 <= i < l.len() && (#[trigger] l[i]).0 == k
}

/// Calls `dashmap::DashMap::iter`: every entry once. The order is left unsaid: it
/// depends on the hasher.
#[verifier::external_body]
pub(crate) fn list4(t: &dashmap::DashMap<u32, u64>) -> (r: Vec<(u32, u64)>)
    ensures
        lists4(r@, owners4(*t)),
{
    t.iter().map(|e| (*e.key(), *e.value())).collect()
}

/// Calls `dashmap::DashMap::new`: an empty table.
#[verifier::external_body]
pub(crate) fn new6() -> (t: dashmap::DashMap<u128, u64>)
    ensures
        (owners6(t) == Map::<u128, u64>::empty()),
{
    dashmap::DashMap::new()
}

/// Calls `dashmap::DashMap::insert`: the key now maps to the value.
#[verifier::external_body]
pub(crate) fn insert6(t: &mut dashmap::DashMap<u128, u64>, k: u128, v: u64)
    ensures
        owners6(*final(t)) == owners6(*old(t)).insert(k, v),
{
    t.insert(k, v);
}

/// Calls `dashmap::DashMap::remove`: the key maps to nothing now.
#[verifier::external_body]
pub(crate) fn remove6(t: &mut dashmap::DashMap<u128, u64>, k: u128)
    ensures
        owners6(*final(t)) == owners6(*old(t)).remove(k),
{
    t.remove(&k);
}

/// Calls `dashmap::DashMap::get`: what the key maps to.
#[verifier::external_body]
pub(crate) fn get6(t: &dashmap::DashMap<u128, u64>, k: u128) -> (r: Option<u64>)
    ensures
        r == owners6(*t).get(k),
{
    t.get(&k).map(|e| *e.value())
}

/// Calls `dashmap::DashMap::new`: an empty table.
#[verifier::external_body]
pub(crate) fn new_places() -> (t: dashmap::DashMap<String, u64>)
    ensures
        (places(t) == Map::<Seq<char>, u64>::empty()),
{
    dashmap::DashMap::new()
}

/// Calls `dashmap::DashMap::insert`: the token now maps to the value.
#[verifier::external_body]
pub(crate) fn insert_place(t: &mut dashmap::DashMap<String, u64>, k: String, v: u64)
    ensures
        places(*final(t)) == places(*old(t)).insert(k@, v),
{
    t.insert(k, v);
}

/// Calls `dashmap::DashMap::get`: what the token maps to.
#[verifier::external_body]
pub(crate) fn get_place(t: &dashmap::DashMap<String, u64>, k: &str) -> (r: Option<u64>)
    ensures
        r == places(*t).get(k@),
{
    t.get(k).map(|e| *e.value())
}

}
