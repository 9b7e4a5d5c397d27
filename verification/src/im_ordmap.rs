//! Trusted surface over the persistent ordered map that backs a per-account
//! queue. Each wrapper's contract states what the wrapped call does over
//! `ord_map_entries`, the mathematical contents of the map.
use vstd::prelude::*;
use crate::transfer::{Nonce, TransferTx};

verus! {

#[verifier::external_type_specification]
#[verifier::external_body]
#[verifier::reject_recursive_types(K)]
#[verifier::reject_recursive_types(V)]
pub struct ExOrdMap<K, V>(im::ordmap::OrdMap<K, V>);

/// The entries a map holds, as a mathematical map from key to value.
pub uninterp spec fn ord_map_entries(m: im::ordmap::OrdMap<Nonce, TransferTx>) -> Map<
    Nonce,
    TransferTx,
>;

/// The entries with keys strictly below `e`.
pub open spec fn keys_below(c: Map<Nonce, TransferTx>, e: Nonce) -> Map<Nonce, TransferTx> {
    c.restrict(Set::new(|k: Nonce| k < e))
}

/// The entries with keys strictly above `e`.
pub open spec fn keys_above(c: Map<Nonce, TransferTx>, e: Nonce) -> Map<Nonce, TransferTx> {
    c.restrict(Set::new(|k: Nonce| k > e))
}

/// Relies on im::OrdMap::contains_key: whether the key is present.
#[verifier::external_body]
pub(crate) fn ordmap_contains(m: &im::ordmap::OrdMap<Nonce, TransferTx>, k: Nonce) -> (r: bool)
    ensures
        r == ord_map_entries(*m).contains_key(k),
{
    m.contains_key(&k)
}

/// Relies on im::OrdMap::insert: maps the key to the value, keeping every
/// other entry.
#[verifier::external_body]
pub(crate) fn ordmap_insert(m: &mut im::ordmap::OrdMap<Nonce, TransferTx>, k: Nonce, v: TransferTx)
    ensures
        ord_map_entries(*final(m)) == ord_map_entries(*old(m)).insert(k, v),
{
    m.insert(k, v);
}

/// Relies on im::OrdMap::len: the number of entries.
#[verifier::external_body]
pub(crate) fn ordmap_len(m: &im::ordmap::OrdMap<Nonce, TransferTx>) -> (r: usize)
    ensures
        r == ord_map_entries(*m).dom().len(),
{
    m.len()
}

/// Relies on im::OrdMap::get_min: the entry with the smallest key, if any.
#[verifier::external_body]
pub(crate) fn ordmap_get_min(m: &im::ordmap::OrdMap<Nonce, TransferTx>) -> (r: Option<
    (Nonce, TransferTx),
>)
    ensures
        match r {
            Some(kv) => ord_map_entries(*m).contains_key(kv.0) && ord_map_entries(*m)[kv.0] == kv.1
                && forall|j: Nonce| ord_map_entries(*m).contains_key(j) ==> kv.0 <= j,
            None => forall|j: Nonce| !ord_map_entries(*m).contains_key(j),
        },
{
    m.get_min().map(|kv| (kv.0, kv.1))
}

/// Relies on im::OrdMap::split_lookup: partitions the entries into those below
/// the key, the entry at the key, and those above it.
#[verifier::external_body]
pub(crate) fn ordmap_split(m: &im::ordmap::OrdMap<Nonce, TransferTx>, k: Nonce) -> (r: (
    im::ordmap::OrdMap<Nonce, TransferTx>,
    Option<TransferTx>,
    im::ordmap::OrdMap<Nonce, TransferTx>,
))
    ensures
        ord_map_entries(r.0) == keys_below(ord_map_entries(*m), k),
        ord_map_entries(r.0).dom().finite(),
        r.1 == if ord_map_entries(*m).contains_key(k) {
            Some(ord_map_entries(*m)[k])
        } else {
            None::<TransferTx>
        },
        ord_map_entries(r.2) == keys_above(ord_map_entries(*m), k),
        ord_map_entries(r.2).dom().finite(),
{
    m.split_lookup(&k)
}

/// Relies on im::OrdMap::iter: yields the entries in ascending key order,
/// each key exactly once.
#[verifier::external_body]
pub(crate) fn ordmap_pairs(m: &im::ordmap::OrdMap<Nonce, TransferTx>) -> (r: Vec<
    (Nonce, TransferTx),
>)
    ensures
        r@.len() == ord_map_entries(*m).dom().len(),
        forall|i: int|
            0 <= i < r@.len() ==> ord_map_entries(*m).contains_key((#[trigger] r@[i]).0)
                && ord_map_entries(*m)[r@[i].0] == r@[i].1,
        forall|i: int, j: int| 0 <= i < j < r@.len() ==> r@[i].0 < r@[j].0,
        forall|k: Nonce|
            #[trigger] ord_map_entries(*m).contains_key(k) ==> exists|i: int|
                0 <= i < r@.len() && r@[i].0 == k,
{
    m.iter().map(|kv| (*kv.0, *kv.1)).collect()
}

} // verus!
