//! The traversal over blocks that are decoded whole.
//!
//! The engine is the one of [`crate::traversal`]; only the blocks come in
//! the eager form, every transaction decoded, and not in the packed form.

use vstd::prelude::*;
use std::hash::BuildHasherDefault;
use dashmap::DashMap;
use fxhash::FxHasher;
use crate::block::{LazyBlockTransaction, LazyBlockTransactionInput};
use crate::bytes::is_txid;
use crate::cache::{cache_get, cache_insert};
use crate::compacted::{
    compacted_input, compacted_inputs, compacted_transaction, CompactedBlock,
};
use crate::error::{CorruptedBlockBytes, TraversalError};
use crate::hop::{
    fee_step, hop_through_transaction, spec_fee_scan, spec_resolve_fee, FeeResolution, Hop,
    SatPoint,
};
use crate::layout::spec_find_transaction;
use crate::schedule::{lemma_sat_height_of_subsidy_sat, subsidy, SUPPLY};
use crate::traversal::{
    advance_from_cache, minted_sat, spec_block_step, spec_degenerate_result, Advance, BlockStep,
    TraversalResult,
};
use crate::txid::{spec_hash_prefix, txid_prefix};

verus! {

/// A transaction of the eager form, decoded as the packed form hands it
/// out.
fn lazy_transaction(tx: &([u8; 8], Vec<([u8; 8], u32, u16, u64)>, Vec<u64>)) -> (decoded:
    LazyBlockTransaction)
    ensures
        decoded@ == compacted_transaction(*tx),
{
    let mut inputs: Vec<LazyBlockTransactionInput> = Vec::with_capacity(tx.1.len());
    let mut k: usize = 0;
    while k < tx.1.len()
        invariant
            k <= tx.1.len(),
            inputs.len() == k,
            forall|j: int| 0 <= j < k ==> (#[trigger] inputs[j]) == compacted_input(tx.1[j]),
        decreases tx.1.len() - k,
    {
        let input = &tx.1[k];
        inputs.push(
            LazyBlockTransactionInput {
                txin: input.0,
                block_height: input.1,
                vout: input.2,
                txin_value: input.3,
            },
        );
        k = k + 1;
    }
    assert(inputs@ =~= compacted_inputs(tx.1@));
    let outputs = tx.2.clone();
    assert(outputs@ =~= tx.2@);
    LazyBlockTransaction { txid: tx.0, inputs, outputs }
}

impl CompactedBlock {
    /// The first transaction whose identifier prefix is `searched_txid`.
    pub fn find_transaction_with_txid(&self, searched_txid: &[u8]) -> (entry: Option<
        LazyBlockTransaction,
    >)
        ensures
            entry is Some <==> spec_find_transaction(self@.transactions, searched_txid@) is Some,
            entry is Some ==> Some(entry->0@) == spec_find_transaction(
                self@.transactions,
                searched_txid@,
            ),
    {
        let txs = &self.0.1;
        let mut i: usize = 0;
        assert(self@.transactions.skip(0) =~= self@.transactions);
        while i < txs.len()
            invariant
                i <= txs.len(),
                txs == &self.0.1,
                spec_find_transaction(self@.transactions, searched_txid@) == spec_find_transaction(
                    self@.transactions.skip(i as int),
                    searched_txid@,
                ),
            decreases txs.len() - i,
        {
            proof {
                assert(self@.transactions.skip(i as int).drop_first() =~= self@.transactions.skip(
                    i + 1,
                ));
                assert(self@.transactions.skip(i as int)[0] == compacted_transaction(
                    txs[i as int],
                ));
            }
            if is_txid(searched_txid, &txs[i].0) {
                return Some(lazy_transaction(&txs[i]));
            }
            i = i + 1;
        }
        None
    }

    /// Looks among the fees of the block for the satoshi at
    /// `ordinal_offset` of its coinbase, which holds `subsidy` satoshis
    /// before the fees.
    pub fn resolve_fee_range(&self, subsidy: u64, ordinal_offset: u64) -> (resolution: FeeResolution)
        requires
            subsidy <= ordinal_offset,
        ensures
            resolution == spec_resolve_fee(
                self@.transactions,
                subsidy as int,
                ordinal_offset as int,
            ),
    {
        let txs = &self.0.1;
        let mut accumulated_fees: u64 = subsidy;
        let mut t: usize = 0;
        while t < txs.len()
            invariant
                t <= txs.len(),
                txs == &self.0.1,
                accumulated_fees <= ordinal_offset,
                spec_resolve_fee(self@.transactions, subsidy as int, ordinal_offset as int)
                    == spec_fee_scan(
                    self@.transactions,
                    t as int,
                    accumulated_fees as int,
                    ordinal_offset as int,
                ),
            decreases txs.len() - t,
        {
            let tx = lazy_transaction(&txs[t]);
            assert(tx@ == self@.transactions[t as int]);
            match fee_step(&tx, accumulated_fees, ordinal_offset) {
                Ok(resolution) => {
                    return resolution;
                },
                Err(accumulated) => {
                    accumulated_fees = accumulated;
                },
            }
            t = t + 1;
        }
        FeeResolution::NotFound
    }
}

/// Takes the place `point` one step back through `block`, which is the
/// block at `point.block_height`. Where the step is a hop through a
/// transaction, the transaction is handed out too.
pub fn step_through_compacted_block(block: &CompactedBlock, point: &SatPoint) -> (step: (
    BlockStep,
    Option<LazyBlockTransaction>,
))
    ensures
        step.0 == spec_block_step(block@, *point),
        step.1 is Some <==> (step.0 is Moved && block@.coinbase_txid@ != point.txid@),
        step.1 matches Some(tx) ==> Some(tx@) == spec_find_transaction(
            block@.transactions,
            point.txid@,
        ),
{
    if is_txid(block.0.0.0.as_slice(), &point.txid) {
        let subsidy: u64 = subsidy(point.block_height as u64);
        if point.offset < subsidy {
            return (BlockStep::Minted(minted_sat(point)), None);
        }
        let step = match block.resolve_fee_range(subsidy, point.offset) {
            FeeResolution::Found(next) => BlockStep::Moved(next),
            FeeResolution::NotFound => BlockStep::Stuck,
            FeeResolution::NegativeFee => BlockStep::Corrupted,
        };
        (step, None)
    } else {
        match block.find_transaction_with_txid(point.txid.as_slice()) {
            Some(tx) => match hop_through_transaction(&tx, point.vout, point.offset) {
                Hop::Next(next) => (BlockStep::Moved(next), Some(tx)),
                Hop::Degenerate => (BlockStep::Degenerate, None),
                Hop::Stuck => (BlockStep::Stuck, None),
            },
            None => (BlockStep::Corrupted, None),
        }
    }
}

/// Looks for the block at `block_height`, up to `attempts` times and once
/// at least, with a pause between two attempts, and decodes it whole.
///
/// `get` reads what the store holds for a height, and `pause` waits.
/// Nothing is found where the last attempt gave nothing; what is found is
/// decoded from what one of the attempts gave.
pub fn find_block_at_block_height<G: Fn(u32) -> Option<Vec<u8>>, P: Fn() -> ()>(
    block_height: u32,
    attempts: u8,
    get: G,
    pause: P,
) -> (found: Option<Result<CompactedBlock, CorruptedBlockBytes>>)
    requires
        call_requires(get, (block_height,)),
        call_requires(pause, ()),
    ensures
        found is None ==> call_ensures(get, (block_height,), None::<Vec<u8>>),
        found is Some ==> exists|bytes: Vec<u8>|
            {
                &&& #[trigger] call_ensures(get, (block_height,), Some(bytes))
                &&& found->0 is Ok <==> crate::layout::well_formed(bytes@)
                &&& found->0 matches Ok(block) ==> block@ == crate::layout::decoded_block(bytes@)
            },
{
    let mut attempt: u8 = 1;
    loop
        invariant
            1 <= attempt,
            call_requires(get, (block_height,)),
            call_requires(pause, ()),
        decreases u8::MAX - attempt,
    {
        match get(block_height) {
            Some(bytes) => {
                return Some(CompactedBlock::deserialize(bytes.as_slice()));
            },
            None => {
                if attempt >= attempts {
                    return None;
                }
                attempt = attempt + 1;
                pause();
            },
        }
    }
}

/// What a traversal at `point`, in its hop number `hops`, does with what
/// the store has for the height of that place, decoded whole. This is
/// [`crate::traversal::spec_advance_from_block`] for blocks in the eager
/// form.
pub open spec fn spec_advance_from_whole_block(
    fetched: Option<Result<CompactedBlock, CorruptedBlockBytes>>,
    point: SatPoint,
    inscription_number: u64,
    hops: u32,
) -> Advance {
    match fetched {
        Some(Ok(block)) => match spec_block_step(block@, point) {
            BlockStep::Minted(ordinal_number) => Advance::End(
                Ok(TraversalResult { inscription_number, ordinal_number, transfers: hops }),
            ),
            BlockStep::Moved(next) => Advance::To(next),
            BlockStep::Degenerate => Advance::End(Ok(spec_degenerate_result(inscription_number))),
            BlockStep::Stuck => Advance::End(Err(TraversalError::HopLimitExceeded)),
            BlockStep::Corrupted => Advance::End(
                Err(TraversalError::CorruptedBlockBytes(point.block_height)),
            ),
        },
        Some(Err(_)) => Advance::End(Err(TraversalError::CorruptedBlockBytes(point.block_height))),
        None => Advance::End(Err(TraversalError::BlockMissing(point.block_height))),
    }
}

/// Says what a traversal at `point`, in its hop number `hops`, does with
/// what the store has for the height of that place, decoded whole. With a
/// hop through a transaction, the transaction is handed out too, for the
/// cache.
pub fn advance_from_whole_block(
    fetched: Option<Result<CompactedBlock, CorruptedBlockBytes>>,
    point: &SatPoint,
    inscription_number: u64,
    hops: u32,
) -> (advance: (Advance, Option<LazyBlockTransaction>))
    ensures
        advance.0 == spec_advance_from_whole_block(fetched, *point, inscription_number, hops),
        advance.1 matches Some(tx) ==> {
            &&& advance.0 is To
            &&& fetched matches Some(Ok(block)) && Some(tx@) == spec_find_transaction(
                block@.transactions,
                point.txid@,
            )
        },
{
    let block = match fetched {
        Some(Ok(block)) => block,
        Some(Err(_)) => {
            return (
                Advance::End(Err(TraversalError::CorruptedBlockBytes(point.block_height))),
                None,
            );
        },
        None => {
            return (Advance::End(Err(TraversalError::BlockMissing(point.block_height))), None);
        },
    };
    let (step, tx) = step_through_compacted_block(&block, point);
    let advance = match step {
        BlockStep::Minted(ordinal_number) => Advance::End(
            Ok(TraversalResult { inscription_number, ordinal_number, transfers: hops }),
        ),
        BlockStep::Moved(next) => Advance::To(next),
        BlockStep::Degenerate => Advance::End(
            Ok(TraversalResult { inscription_number, ordinal_number: 0, transfers: 0 }),
        ),
        BlockStep::Stuck => Advance::End(Err(TraversalError::HopLimitExceeded)),
        BlockStep::Corrupted => Advance::End(
            Err(TraversalError::CorruptedBlockBytes(point.block_height)),
        ),
    };
    (advance, tx)
}

/// Whether `fetch_block` may hand out a block that mints the satoshi
/// `ordinal_number`: a block for the height of a place that is in the
/// subsidy of its coinbase, where the satoshi at that place has this
/// number.
pub open spec fn spec_handed_out_minting_whole<
    F: Fn(u32) -> Option<Result<CompactedBlock, CorruptedBlockBytes>>,
>(fetch_block: F, ordinal_number: u64) -> bool {
    exists|block: CompactedBlock, point: SatPoint|
        {
            &&& #[trigger] call_ensures(fetch_block, (point.block_height,), Some(Ok(block)))
            &&& #[trigger] spec_block_step(block@, point) == BlockStep::Minted(ordinal_number)
        }
}

/// Whether what `fetch_block` hands out for `height` makes a traversal give
/// up: there were bytes that are no packed block, or the block does not
/// hold what some place at that height asks for.
pub open spec fn spec_fails_traversal_whole(
    outcome: Result<CompactedBlock, CorruptedBlockBytes>,
    height: u32,
) -> bool {
    match outcome {
        Ok(block) => exists|point: SatPoint|
            point.block_height == height && #[trigger] spec_block_step(block@, point)
                == BlockStep::Corrupted,
        Err(_) => true,
    }
}

/// Whether `fetch_block` may hand out, for `height`, what a traversal has
/// to give up on.
pub open spec fn spec_handed_out_corrupted_whole<
    F: Fn(u32) -> Option<Result<CompactedBlock, CorruptedBlockBytes>>,
>(fetch_block: F, height: u32) -> bool {
    exists|outcome: Result<CompactedBlock, CorruptedBlockBytes>| #[trigger]
        call_ensures(fetch_block, (height,), Some(outcome)) && spec_fails_traversal_whole(
            outcome,
            height,
        )
}

/// Follows the first satoshi of the first output of a transaction back to
/// the block that minted it, over blocks that are decoded whole.
///
/// `fetch_block` gives the block stored for a height, decoded, or what went
/// wrong with its bytes, or `None`. In all else this is
/// [`crate::traversal::retrieve_satoshi_point_using_lazy_storage`].
pub fn retrieve_satoshi_point_using_local_storage<
    F: Fn(u32) -> Option<Result<CompactedBlock, CorruptedBlockBytes>>,
>(
    fetch_block: F,
    block_height: u32,
    transaction_hash: &str,
    inscription_number: u64,
    traversals_cache: &DashMap<(u32, [u8; 8]), LazyBlockTransaction, BuildHasherDefault<FxHasher>>,
) -> (found: Result<TraversalResult, TraversalError>)
    requires
        forall|height: u32| call_requires(fetch_block, (height,)),
    ensures
        spec_hash_prefix(transaction_hash@) is None <==> found == Err::<
            TraversalResult,
            TraversalError,
        >(TraversalError::InvalidTxid),
        spec_hash_prefix(transaction_hash@) is Some && block_height == 0 ==> found == Err::<
            TraversalResult,
            TraversalError,
        >(TraversalError::HopLimitExceeded),
        found matches Ok(result) ==> {
            &&& result.inscription_number == inscription_number
            &&& result.transfers <= block_height
            &&& result.ordinal_number < SUPPLY
            &&& result.transfers == 0 ==> result == spec_degenerate_result(inscription_number)
            &&& result.transfers > 0 ==> spec_handed_out_minting_whole(
                fetch_block,
                result.ordinal_number,
            )
        },
        found matches Err(TraversalError::BlockMissing(height)) ==> call_ensures(
            fetch_block,
            (height,),
            None::<Result<CompactedBlock, CorruptedBlockBytes>>,
        ),
        found matches Err(TraversalError::CorruptedBlockBytes(height))
            ==> spec_handed_out_corrupted_whole(fetch_block, height),
{
    let txid: [u8; 8] = match txid_prefix(transaction_hash) {
        Some(txid) => txid,
        None => {
            return Err(TraversalError::InvalidTxid);
        },
    };
    let mut point = SatPoint { block_height, txid, vout: 0, offset: 0 };
    let mut hops: u32 = 0;
    loop
        invariant
            hops <= block_height,
            spec_hash_prefix(transaction_hash@) is Some,
            forall|height: u32| call_requires(fetch_block, (height,)),
        decreases block_height - hops,
    {
        if hops >= block_height {
            return Err(TraversalError::HopLimitExceeded);
        }
        hops = hops + 1;
        let cached = cache_get(traversals_cache, point.block_height, point.txid);
        match advance_from_cache(&cached, &point, inscription_number) {
            Advance::To(next) => {
                point = next;
                continue ;
            },
            Advance::End(found) => {
                return found;
            },
            Advance::Fetch => {},
        }
        let fetched = fetch_block(point.block_height);
        let ghost handed_out = fetched;
        let (advance, tx) = advance_from_whole_block(fetched, &point, inscription_number, hops);
        match advance {
            Advance::To(next) => {
                if let Some(tx) = tx {
                    cache_insert(traversals_cache, point.block_height, point.txid, tx);
                }
                point = next;
            },
            Advance::End(found) => {
                proof {
                    if let Some(outcome) = handed_out {
                        if let Ok(block) = outcome {
                            if spec_block_step(block@, point) is Minted {
                                lemma_sat_height_of_subsidy_sat(
                                    point.block_height as nat,
                                    point.offset as nat,
                                );
                            } else if spec_block_step(block@, point) is Corrupted {
                                assert(spec_fails_traversal_whole(outcome, point.block_height));
                            }
                        }
                    }
                }
                return found;
            },
            Advance::Fetch => {
                assert(false);
            },
        }
    }
}

} // verus!
