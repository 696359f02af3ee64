use crate::transaction::{MeteredTransaction, TxHash};
use indexmap::IndexMap;
use vstd::prelude::*;

verus! {

/// `indexmap::IndexMap`: a hash map that remembers the order of insertion.
#[verifier::external_type_specification]
#[verifier::external_body]
#[verifier::reject_recursive_types(K)]
#[verifier::reject_recursive_types(V)]
#[verifier::reject_recursive_types(S)]
pub struct ExIndexMap<K, V, S>(IndexMap<K, V, S>);

/// The pairs that an insertion-ordered map holds, in their order.
pub uninterp spec fn pairs_of(map: IndexMap<TxHash, MeteredTransaction>) -> Seq<
    (TxHash, MeteredTransaction),
>;

/// Whether some pair has the key `hash`.
pub open spec fn has_key(pairs: Seq<(TxHash, MeteredTransaction)>, hash: TxHash) -> bool {
    exists|i: int| 0 <= i < pairs.len() && (#[trigger] pairs[i]).0 == hash
}

/// The position of the pair with the key `hash`.
pub open spec fn key_index(pairs: Seq<(TxHash, MeteredTransaction)>, hash: TxHash) -> int {
    choose|i: int| 0 <= i < pairs.len() && (#[trigger] pairs[i]).0 == hash
}

/// `indexmap::IndexMap::new`: the map holds nothing.
#[verifier::external_body]
pub(crate) fn index_map_new() -> (map: IndexMap<TxHash, MeteredTransaction>)
    ensures
        pairs_of(map) == Seq::<(TxHash, MeteredTransaction)>::empty(),
{
    IndexMap::new()
}

/// `indexmap::IndexMap::len`: the number of pairs.
#[verifier::external_body]
pub(crate) fn index_map_len(map: &IndexMap<TxHash, MeteredTransaction>) -> (len: usize)
    ensures
        len == pairs_of(*map).len(),
{
    map.len()
}

/// `indexmap::IndexMap::get`: the value stored under `hash`, or `None` where no pair has
/// that key.
#[verifier::external_body]
pub(crate) fn index_map_get<'a>(
    map: &'a IndexMap<TxHash, MeteredTransaction>,
    hash: &TxHash,
) -> (found: Option<&'a MeteredTransaction>)
    ensures
        match found {
            Some(tx) => has_key(pairs_of(*map), *hash) && *tx == pairs_of(*map)[key_index(
                pairs_of(*map),
                *hash,
            )].1,
            None => !has_key(pairs_of(*map), *hash),
        },
{
    map.get(hash)
}

/// `indexmap::IndexMap::insert`: a key that is there already keeps its place and gets the
/// new value, a new key goes last, and the value that was replaced is handed back.
#[verifier::external_body]
pub(crate) fn index_map_insert(
    map: &mut IndexMap<TxHash, MeteredTransaction>,
    hash: TxHash,
    tx: MeteredTransaction,
) -> (replaced: Option<MeteredTransaction>)
    ensures
        pairs_of(*final(map)) == (if has_key(pairs_of(*old(map)), hash) {
            pairs_of(*old(map)).update(key_index(pairs_of(*old(map)), hash), (hash, tx))
        } else {
            pairs_of(*old(map)).push((hash, tx))
        }),
        replaced == (if has_key(pairs_of(*old(map)), hash) {
            Some(pairs_of(*old(map))[key_index(pairs_of(*old(map)), hash)].1)
        } else {
            None
        }),
{
    map.insert(hash, tx)
}

/// `indexmap::IndexMap::shift_remove`: takes the pair with the key `hash` out, keeps the
/// order of the others, and hands its value back.
#[verifier::external_body]
pub(crate) fn index_map_shift_remove(
    map: &mut IndexMap<TxHash, MeteredTransaction>,
    hash: &TxHash,
) -> (removed: Option<MeteredTransaction>)
    ensures
        pairs_of(*final(map)) == (if has_key(pairs_of(*old(map)), *hash) {
            pairs_of(*old(map)).remove(key_index(pairs_of(*old(map)), *hash))
        } else {
            pairs_of(*old(map))
        }),
        removed == (if has_key(pairs_of(*old(map)), *hash) {
            Some(pairs_of(*old(map))[key_index(pairs_of(*old(map)), *hash)].1)
        } else {
            None
        }),
{
    map.shift_remove(hash)
}

/// `indexmap::IndexMap::values`: the values in the order of their pairs.
#[verifier::external_body]
pub(crate) fn index_map_values<'a>(map: &'a IndexMap<TxHash, MeteredTransaction>) -> (values: Vec<
    &'a MeteredTransaction,
>)
    ensures
        values@ == pairs_of(*map).map_values(|pair: (TxHash, MeteredTransaction)| &pair.1),
{
    map.values().collect()
}

} // verus!
