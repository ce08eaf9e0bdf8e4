//! The traversal engine: from a transaction output back, hop by hop, to the
//! block that minted the first satoshi of that output.

use vstd::prelude::*;
use std::hash::BuildHasherDefault;
use dashmap::DashMap;
use fxhash::FxHasher;
use crate::block::{LazyBlock, LazyBlockTransaction};
use crate::bytes::is_txid;
use crate::cache::{cache_get, cache_insert};
use crate::error::TraversalError;
use crate::hop::{
    hop_through_transaction, lemma_fee_scan_goes_back, lemma_hop_goes_back, resolve_fee_range,
    spec_hop, spec_resolve_fee, FeeResolution, Hop, SatPoint,
};
use crate::layout::{lemma_find_transaction_finds, spec_find_transaction, BlockView};
use crate::schedule::{
    lemma_sat_height_of_subsidy_sat, sat_height, spec_sat_height, spec_starting_sat,
    spec_subsidy, starting_sat, subsidy, SUPPLY,
};
use crate::txid::{spec_hash_prefix, txid_prefix};

verus! {

/// What a traversal finds: the satoshi that stands first in the output, and
/// the number of hops that led to the block that minted it.
#[derive(Clone, Copy, Debug, PartialEq, Eq)]
pub struct TraversalResult {
    pub inscription_number: u64,
    pub ordinal_number: u64,
    pub transfers: u32,
}

impl TraversalResult {
    /// The height of the block that minted the satoshi.
    pub fn get_ordinal_coinbase_height(&self) -> (height: u64)
        requires
            self.ordinal_number < SUPPLY,
        ensures
            height == spec_sat_height(self.ordinal_number as nat),
    {
        sat_height(self.ordinal_number)
    }

    /// The place of the satoshi among those that its block minted.
    pub fn get_ordinal_coinbase_offset(&self) -> (offset: u64)
        requires
            self.ordinal_number < SUPPLY,
        ensures
            offset == self.ordinal_number - spec_starting_sat(
                spec_sat_height(self.ordinal_number as nat),
            ),
    {
        let height: u64 = sat_height(self.ordinal_number);
        self.ordinal_number - starting_sat(height)
    }
}

/// What is put in place of a result where a transaction takes nothing in:
/// satoshi zero, after no hop.
pub open spec fn spec_degenerate_result(inscription_number: u64) -> TraversalResult {
    TraversalResult { inscription_number, ordinal_number: 0, transfers: 0 }
}

/// What a block says of a place in it.
#[derive(Debug, Clone, Copy, PartialEq, Eq)]
pub enum BlockStep {
    /// The satoshi is of the subsidy that the block minted, and this is its
    /// number: the traversal ends here.
    Minted(u64),
    /// The satoshi came in from the given place of an earlier transaction.
    Moved(SatPoint),
    /// The transaction takes nothing in.
    Degenerate,
    /// The transaction, or the fees of the block, do not hold the place.
    Stuck,
    /// The block does not hold the transaction, or a transaction of it
    /// hands out more than it takes in.
    Corrupted,
}

/// What `block` says of the place `point`, which is in it.
///
/// In the coinbase, the first satoshis are the subsidy, minted here, and the
/// others are the fees of the transactions. In another transaction, the
/// satoshi came in through an input.
pub open spec fn spec_block_step(block: BlockView, point: SatPoint) -> BlockStep {
    if block.coinbase_txid@ == point.txid@ {
        let subsidy = spec_subsidy(point.block_height as nat);
        if point.offset < subsidy {
            BlockStep::Minted(spec_final_sat(point) as u64)
        } else {
            match spec_resolve_fee(block.transactions, subsidy as int, point.offset as int) {
                FeeResolution::Found(next) => BlockStep::Moved(next),
                FeeResolution::NotFound => BlockStep::Stuck,
                FeeResolution::NegativeFee => BlockStep::Corrupted,
            }
        }
    } else {
        match spec_find_transaction(block.transactions, point.txid@) {
            Some(tx) => match spec_hop(tx, point.vout as int, point.offset as int) {
                Hop::Next(next) => BlockStep::Moved(next),
                Hop::Degenerate => BlockStep::Degenerate,
                Hop::Stuck => BlockStep::Stuck,
            },
            None => BlockStep::Corrupted,
        }
    }
}

/// Takes the place `point` one step back through `block`, which is the
/// block at `point.block_height`. Where the step is a hop through a
/// transaction, the transaction is handed out too, decoded.
pub fn step_through_block(block: &LazyBlock, point: &SatPoint) -> (step: (
    BlockStep,
    Option<LazyBlockTransaction>,
))
    requires
        block.wf(),
    ensures
        step.0 == spec_block_step(block@, *point),
        step.1 is Some <==> (step.0 is Moved && block@.coinbase_txid@ != point.txid@),
        step.1 matches Some(tx) ==> Some(tx@) == spec_find_transaction(
            block@.transactions,
            point.txid@,
        ),
{
    let coinbase_txid = block.get_coinbase_txid();
    // In the coinbase the traversal ends, unless the satoshi is of a fee.
    if is_txid(coinbase_txid, &point.txid) {
        let subsidy: u64 = subsidy(point.block_height as u64);
        if point.offset < subsidy {
            return (BlockStep::Minted(minted_sat(point)), None);
        }
        // Behind the subsidy stand the fees, transaction by transaction.
        let step = match resolve_fee_range(block, subsidy, point.offset) {
            FeeResolution::Found(next) => BlockStep::Moved(next),
            FeeResolution::NotFound => BlockStep::Stuck,
            FeeResolution::NegativeFee => BlockStep::Corrupted,
        };
        (step, None)
    } else {
        // Any other transaction is hopped through.
        match block.find_and_serialize_transaction_with_txid(&point.txid) {
            Some(tx) => match hop_through_transaction(&tx, point.vout, point.offset) {
                Hop::Next(next) => (BlockStep::Moved(next), Some(tx)),
                Hop::Degenerate => (BlockStep::Degenerate, None),
                Hop::Stuck => (BlockStep::Stuck, None),
            },
            None => (BlockStep::Corrupted, None),
        }
    }
}

/// What a traversal does after a look into the cache or into a block.
#[derive(Debug, Clone, Copy, PartialEq, Eq)]
pub enum Advance {
    /// It goes on at this place.
    To(SatPoint),
    /// It asks the store for the block that its place is in.
    Fetch,
    /// It ends with this.
    End(Result<TraversalResult, TraversalError>),
}

/// What a traversal at `point` does with what the cache has for the
/// transaction of that place.
///
/// Without a cached transaction, the block has to be asked for. With one,
/// the traversal hops through it. Where the cached transaction takes
/// nothing in, the traversal ends with satoshi zero after no hop; where it
/// does not hold the place, the block has to be asked for after all.
pub open spec fn spec_advance_from_cache(
    cached: Option<LazyBlockTransaction>,
    point: SatPoint,
    inscription_number: u64,
) -> Advance {
    match cached {
        Some(tx) => match spec_hop(tx@, point.vout as int, point.offset as int) {
            Hop::Next(next) => Advance::To(next),
            Hop::Degenerate => Advance::End(Ok(spec_degenerate_result(inscription_number))),
            Hop::Stuck => Advance::Fetch,
        },
        None => Advance::Fetch,
    }
}

/// What a traversal at `point`, in its hop number `hops`, does with what
/// the store has for the height of that place.
///
/// It fails where the store has no block, or bytes that are no packed
/// block, or a block that does not hold what the place asks for. It ends
/// with the number of the satoshi and the number of hops where the block
/// minted the satoshi, and with satoshi zero after no hop where the
/// transaction takes nothing in. It goes on where the satoshi came in from
/// elsewhere. A place that no input holds cannot be left: as going round
/// would end at the limit of hops, that is how it fails then.
pub open spec fn spec_advance_from_block(
    fetched: Option<LazyBlock>,
    point: SatPoint,
    inscription_number: u64,
    hops: u32,
) -> Advance {
    match fetched {
        Some(block) => if block.wf() {
            match spec_block_step(block@, point) {
                BlockStep::Minted(ordinal_number) => Advance::End(
                    Ok(TraversalResult { inscription_number, ordinal_number, transfers: hops }),
                ),
                BlockStep::Moved(next) => Advance::To(next),
                BlockStep::Degenerate => Advance::End(
                    Ok(spec_degenerate_result(inscription_number)),
                ),
                BlockStep::Stuck => Advance::End(Err(TraversalError::HopLimitExceeded)),
                BlockStep::Corrupted => Advance::End(
                    Err(TraversalError::CorruptedBlockBytes(point.block_height)),
                ),
            }
        } else {
            Advance::End(Err(TraversalError::CorruptedBlockBytes(point.block_height)))
        },
        None => Advance::End(Err(TraversalError::BlockMissing(point.block_height))),
    }
}

/// Says what a traversal at `point` does with what the cache has for the
/// transaction of that place.
pub fn advance_from_cache(
    cached: &Option<LazyBlockTransaction>,
    point: &SatPoint,
    inscription_number: u64,
) -> (advance: Advance)
    ensures
        advance == spec_advance_from_cache(*cached, *point, inscription_number),
{
    match cached {
        Some(tx) => match hop_through_transaction(tx, point.vout, point.offset) {
            Hop::Next(next) => Advance::To(next),
            Hop::Degenerate => Advance::End(
                Ok(TraversalResult { inscription_number, ordinal_number: 0, transfers: 0 }),
            ),
            Hop::Stuck => Advance::Fetch,
        },
        None => Advance::Fetch,
    }
}

/// Says what a traversal at `point`, in its hop number `hops`, does with
/// what the store has for the height of that place. With a hop through a
/// transaction, the transaction is handed out too, for the cache.
pub fn advance_from_block(
    fetched: Option<LazyBlock>,
    point: &SatPoint,
    inscription_number: u64,
    hops: u32,
) -> (advance: (Advance, Option<LazyBlockTransaction>))
    ensures
        advance.0 == spec_advance_from_block(fetched, *point, inscription_number, hops),
        advance.1 matches Some(tx) ==> {
            &&& advance.0 is To
            &&& fetched matches Some(block) && Some(tx@) == spec_find_transaction(
                block@.transactions,
                point.txid@,
            )
        },
{
    let lazy_block = match fetched {
        Some(block) => block,
        None => {
            return (Advance::End(Err(TraversalError::BlockMissing(point.block_height))), None);
        },
    };
    if !lazy_block.is_well_formed() {
        return (Advance::End(Err(TraversalError::CorruptedBlockBytes(point.block_height))), None);
    }
    let (step, tx) = step_through_block(&lazy_block, point);
    let advance = match step {
        BlockStep::Minted(ordinal_number) => Advance::End(
            Ok(TraversalResult { inscription_number, ordinal_number, transfers: hops }),
        ),
        BlockStep::Moved(next) => Advance::To(next),
        BlockStep::Degenerate => Advance::End(
            Ok(TraversalResult { inscription_number, ordinal_number: 0, transfers: 0 }),
        ),
        BlockStep::Stuck => Advance::End(Err(TraversalError::HopLimitExceeded)),
        BlockStep::Corrupted => Advance::End(
            Err(TraversalError::CorruptedBlockBytes(point.block_height)),
        ),
    };
    (advance, tx)
}

/// **Subsidy.** Where a place is in the coinbase of its block, before the
/// end of the subsidy, the satoshi was minted there, and its number is the
/// starting satoshi of the block and the offset.
pub proof fn lemma_subsidy_sat(block: BlockView, point: SatPoint)
    requires
        block.coinbase_txid@ == point.txid@,
        point.offset < spec_subsidy(point.block_height as nat),
    ensures
        spec_block_step(block, point) == BlockStep::Minted(
            (spec_starting_sat(point.block_height as nat) + point.offset) as u64,
        ),
        spec_starting_sat(point.block_height as nat) + point.offset < SUPPLY,
        spec_sat_height(spec_final_sat(point) as nat) == point.block_height,
{
    lemma_sat_height_of_subsidy_sat(point.block_height as nat, point.offset as nat);
}

/// The number of the satoshi at a place of a block's subsidy.
pub(crate) fn minted_sat(point: &SatPoint) -> (sat: u64)
    requires
        point.offset < spec_subsidy(point.block_height as nat),
    ensures
        sat == spec_final_sat(*point),
        sat < SUPPLY,
{
    proof {
        lemma_sat_height_of_subsidy_sat(point.block_height as nat, point.offset as nat);
    }
    starting_sat(point.block_height as u64) + point.offset
}

/// Whether every input of `block` spends an output of a block before
/// `height`, as the inputs of the block at `height` do.
pub open spec fn spec_inputs_precede(block: BlockView, height: int) -> bool {
    forall|t: int, k: int|
        0 <= t < block.transactions.len() && 0 <= k < block.transactions[t].inputs.len() ==> (
        #[trigger] block.transactions[t].inputs[k]).block_height < height
}

/// **Monotonicity.** A step through a block whose inputs spend outputs of
/// earlier blocks leads to an earlier block. So a traversal over such blocks
/// takes no more steps than the height that it starts at.
pub proof fn lemma_block_step_goes_back(block: BlockView, point: SatPoint)
    requires
        spec_inputs_precede(block, point.block_height as int),
    ensures
        spec_block_step(block, point) matches BlockStep::Moved(next) ==> next.block_height
            < point.block_height,
{
    let txs = block.transactions;
    if block.coinbase_txid@ == point.txid@ {
        lemma_fee_scan_goes_back(
            txs,
            0,
            spec_subsidy(point.block_height as nat) as int,
            point.offset as int,
            point.block_height as int,
        );
    } else if let Some(tx) = spec_find_transaction(txs, point.txid@) {
        lemma_find_transaction_finds(txs, point.txid@);
        let t = choose|t: int| 0 <= t < txs.len() && txs[t] == tx;
        assert forall|k: int| 0 <= k < tx.inputs.len() implies (#[trigger] tx.inputs[k]).block_height
            < point.block_height by {
            assert(txs[t].inputs[k].block_height < point.block_height);
        }
        lemma_hop_goes_back(tx, point.vout as int, point.offset as int, point.block_height as int);
    }
}

/// The number of the satoshi at a place of a block's subsidy.
pub open spec fn spec_final_sat(point: SatPoint) -> int {
    spec_starting_sat(point.block_height as nat) + point.offset
}

/// Whether a traversal that comes to the block at `height` and is handed
/// `block` for it may have to give up: the bytes are no packed block, or the
/// block does not hold what some place at that height asks for.
pub open spec fn spec_fails_traversal(block: LazyBlock, height: u32) -> bool {
    ||| !block.wf()
    ||| exists|point: SatPoint|
        point.block_height == height && #[trigger] spec_block_step(block@, point)
            == BlockStep::Corrupted
}

/// Whether `fetch_block` may hand out a block that mints the satoshi
/// `ordinal_number`: a packed block, for the height of a place that is in the
/// subsidy of its coinbase, where the satoshi at that place has this
/// number.
pub open spec fn spec_handed_out_minting<F: Fn(u32) -> Option<LazyBlock>>(
    fetch_block: F,
    ordinal_number: u64,
) -> bool {
    exists|block: LazyBlock, point: SatPoint|
        {
            &&& #[trigger] call_ensures(fetch_block, (point.block_height,), Some(block))
            &&& block.wf()
            &&& #[trigger] spec_block_step(block@, point) == BlockStep::Minted(ordinal_number)
        }
}

/// Whether `fetch_block` may hand out, for `height`, a block that a
/// traversal has to give up on.
pub open spec fn spec_handed_out_corrupted<F: Fn(u32) -> Option<LazyBlock>>(
    fetch_block: F,
    height: u32,
) -> bool {
    exists|block: LazyBlock| #[trigger]
        call_ensures(fetch_block, (height,), Some(block)) && spec_fails_traversal(block, height)
}

/// Follows the first satoshi of the first output of a transaction back to
/// the block that minted it.
///
/// `block_height` is the height of the block that holds the transaction,
/// and `transaction_hash` its identifier in hexadecimal. `fetch_block`
/// gives the packed block stored for a height, or `None`. The traversal
/// looks for each transaction in `traversals_cache` before it asks for the
/// block, and leaves there each transaction that it has hopped through.
///
/// Each hop is a step through a block ([`step_through_block`]) or, where
/// the cache has the transaction, a hop through that transaction
/// ([`hop_through_transaction`]). The traversal ends where a step finds the
/// block that minted the satoshi, and gives its number with the number of
/// hops. Where a transaction takes nothing in, it gives satoshi zero after
/// no hop instead. It fails where the store has no block for a height, or
/// bytes that are no packed block, or a block without the transaction that
/// is looked for. A place that no input holds cannot be left: as going round
/// would end at the limit of hops, that is how the traversal fails then, and
/// at once.
///
/// What comes back depends on what the store and the cache give. Whatever
/// they give, the traversal ends after `block_height` hops at most; the
/// satoshi that it names is one that a block mints which the store handed
/// out; and it fails at once on an identifier that is not hexadecimal.
pub fn retrieve_satoshi_point_using_lazy_storage<F: Fn(u32) -> Option<LazyBlock>>(
    fetch_block: F,
    block_height: u32,
    transaction_hash: &str,
    inscription_number: u64,
    traversals_cache: &DashMap<(u32, [u8; 8]), LazyBlockTransaction, BuildHasherDefault<FxHasher>>,
) -> (found: Result<TraversalResult, TraversalError>)
    requires
        forall|height: u32| call_requires(fetch_block, (height,)),
    ensures
        spec_hash_prefix(transaction_hash@) is None <==> found == Err::<
            TraversalResult,
            TraversalError,
        >(TraversalError::InvalidTxid),
        spec_hash_prefix(transaction_hash@) is Some && block_height == 0 ==> found
            == Err::<TraversalResult, TraversalError>(TraversalError::HopLimitExceeded),
        found matches Ok(result) ==> {
            &&& result.inscription_number == inscription_number
            &&& result.transfers <= block_height
            &&& result.ordinal_number < SUPPLY
            &&& result.transfers == 0 ==> result == spec_degenerate_result(inscription_number)
            &&& result.transfers > 0 ==> spec_handed_out_minting(
                fetch_block,
                result.ordinal_number,
            )
        },
        found matches Err(TraversalError::BlockMissing(height)) ==> call_ensures(
            fetch_block,
            (height,),
            None::<LazyBlock>,
        ),
        found matches Err(TraversalError::CorruptedBlockBytes(height)) ==> spec_handed_out_corrupted(
            fetch_block,
            height,
        ),
{
    let txid: [u8; 8] = match txid_prefix(transaction_hash) {
        Some(txid) => txid,
        None => {
            return Err(TraversalError::InvalidTxid);
        },
    };
    let mut point = SatPoint { block_height, txid, vout: 0, offset: 0 };
    let mut hops: u32 = 0;
    loop
        invariant
            hops <= block_height,
            spec_hash_prefix(transaction_hash@) is Some,
            forall|height: u32| call_requires(fetch_block, (height,)),
        decreases block_height - hops,
    {
        if hops >= block_height {
            return Err(TraversalError::HopLimitExceeded);
        }
        hops = hops + 1;
        let cached = cache_get(traversals_cache, point.block_height, point.txid);
        match advance_from_cache(&cached, &point, inscription_number) {
            Advance::To(next) => {
                point = next;
                continue ;
            },
            Advance::End(found) => {
                return found;
            },
            Advance::Fetch => {},
        }
        let fetched = fetch_block(point.block_height);
        let ghost handed_out = fetched;
        let (advance, tx) = advance_from_block(fetched, &point, inscription_number, hops);
        match advance {
            Advance::To(next) => {
                if let Some(tx) = tx {
                    cache_insert(traversals_cache, point.block_height, point.txid, tx);
                }
                point = next;
            },
            Advance::End(found) => {
                proof {
                    if let Some(block) = handed_out {
                        if block.wf() {
                            if spec_block_step(block@, point) is Minted {
                                lemma_sat_height_of_subsidy_sat(
                                    point.block_height as nat,
                                    point.offset as nat,
                                );
                            } else if spec_block_step(block@, point) is Corrupted {
                                assert(spec_fails_traversal(block, point.block_height));
                            }
                        }
                    }
                }
                return found;
            },
            Advance::Fetch => {
                assert(false);
            },
        }
    }
}

} // verus!
