//! The traversal cache: transactions that a traversal has decoded, kept for
//! the traversals that come by the same way.
//!
//! The cache is a concurrent map from the height of a block and the
//! identifier prefix of a transaction to the transaction. Many traversals
//! share it, and whoever runs them clears it from time to time. Another
//! thread may fill or clear it at any moment, so nothing is known of what a
//! lookup gives: whoever reads from the cache has to do with any
//! transaction.

use vstd::prelude::*;
use std::hash::BuildHasherDefault;
use dashmap::DashMap;
use fxhash::FxHasher;
use crate::block::LazyBlockTransaction;

verus! {

/// `dashmap::DashMap`, a map that is read and written through shared
/// references. Nothing is claimed of what it holds.
#[verifier::external_type_specification]
#[verifier::external_body]
#[verifier::reject_recursive_types(K)]
#[verifier::reject_recursive_types(V)]
#[verifier::reject_recursive_types(S)]
pub struct ExDashMap<K, V, S>(DashMap<K, V, S>);

/// `fxhash::FxHasher`, the hasher of the cache.
#[verifier::external_type_specification]
#[verifier::external_body]
pub struct ExFxHasher(FxHasher);

/// `std::hash::BuildHasherDefault`, which makes hashers by `Default`.
#[verifier::external_type_specification]
#[verifier::external_body]
#[verifier::reject_recursive_types(H)]
pub struct ExBuildHasherDefault<H>(BuildHasherDefault<H>);

/// Calls `DashMap::get` and clones what it finds. Nothing is promised of the
/// result: another thread may have written the entry, or taken it away.
#[verifier::external_body]
pub(crate) fn cache_get(
    cache: &DashMap<(u32, [u8; 8]), LazyBlockTransaction, BuildHasherDefault<FxHasher>>,
    block_height: u32,
    txid: [u8; 8],
) -> (entry: Option<LazyBlockTransaction>) {
    match cache.get(&(block_height, txid)) {
        Some(entry) => Some(entry.value().clone()),
        None => None,
    }
}

/// Calls `DashMap::insert`, dropping what the key held before.
#[verifier::external_body]
pub(crate) fn cache_insert(
    cache: &DashMap<(u32, [u8; 8]), LazyBlockTransaction, BuildHasherDefault<FxHasher>>,
    block_height: u32,
    txid: [u8; 8],
    tx: LazyBlockTransaction,
) {
    cache.insert((block_height, txid), tx);
}

} // verus!
