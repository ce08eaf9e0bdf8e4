//! One hop of a satoshi, backwards: from a place in the outputs of a
//! transaction to the input that it came in through.
//!
//! The satoshis that a transaction takes in are laid out input after input;
//! the satoshis that it hands out are the same ones, output after output, and
//! what is left over is the fee, which the coinbase of the block collects.
//! So the satoshi at some position of the outputs is the satoshi at the same
//! position of the inputs.

use vstd::prelude::*;
use crate::block::{LazyBlock, LazyBlockTransaction, LazyBlockTransactionInput};
use crate::layout::TransactionView;

verus! {

/// A place in the chain: `offset` satoshis into output `vout` of the
/// transaction with identifier prefix `txid`, in the block at
/// `block_height`.
#[derive(Debug, Clone, Copy, PartialEq, Eq)]
pub struct SatPoint {
    pub block_height: u32,
    pub txid: [u8; 8],
    pub vout: usize,
    pub offset: u64,
}

/// Where a hop through a transaction leads.
#[derive(Debug, Clone, Copy, PartialEq, Eq)]
pub enum Hop {
    /// To the output that one of the inputs spends.
    Next(SatPoint),
    /// Nowhere: the inputs hold nothing at all.
    Degenerate,
    /// Nowhere: the inputs hold something, but not as much as the place
    /// asks for.
    Stuck,
}

/// Where the search for a satoshi among the fees of a block leads.
#[derive(Debug, Clone, Copy, PartialEq, Eq)]
pub enum FeeResolution {
    /// To the output that an input of the paying transaction spends.
    Found(SatPoint),
    /// Nowhere: the fees of the block do not reach that far.
    NotFound,
    /// Nowhere: a transaction hands out more than it takes in.
    NegativeFee,
}

// ---------------------------------------------------------------------------
// Sums
// ---------------------------------------------------------------------------
/// What some outputs hold together.
pub open spec fn spec_outputs_sum(outputs: Seq<u64>) -> int
    decreases outputs.len(),
{
    if outputs.len() == 0 {
        0
    } else {
        spec_outputs_sum(outputs.drop_last()) + outputs.last()
    }
}

/// What some inputs hold together.
pub open spec fn spec_inputs_sum(inputs: Seq<LazyBlockTransactionInput>) -> int
    decreases inputs.len(),
{
    if inputs.len() == 0 {
        0
    } else {
        spec_inputs_sum(inputs.drop_last()) + inputs.last().txin_value
    }
}

/// What the inputs up to and with input `index` hold together.
pub open spec fn spec_sats_in_through(inputs: Seq<LazyBlockTransactionInput>, index: int) -> int {
    spec_inputs_sum(inputs.take(index + 1))
}

/// What a transaction leaves to the coinbase of its block.
pub open spec fn spec_fee(tx: TransactionView) -> int {
    spec_inputs_sum(tx.inputs) - spec_outputs_sum(tx.outputs)
}

/// A sum of amounts is not negative, and no amount is more than `u64::MAX`.
pub proof fn lemma_outputs_sum_bounds(outputs: Seq<u64>)
    ensures
        0 <= spec_outputs_sum(outputs) <= outputs.len() * u64::MAX,
    decreases outputs.len(),
{
    if outputs.len() > 0 {
        lemma_outputs_sum_bounds(outputs.drop_last());
    }
}

/// A sum of amounts is not negative, and no amount is more than `u64::MAX`.
pub proof fn lemma_inputs_sum_bounds(inputs: Seq<LazyBlockTransactionInput>)
    ensures
        0 <= spec_inputs_sum(inputs) <= inputs.len() * u64::MAX,
    decreases inputs.len(),
{
    if inputs.len() > 0 {
        lemma_inputs_sum_bounds(inputs.drop_last());
    }
}

/// The running sum of the inputs grows by each input's amount.
pub proof fn lemma_inputs_sum_step(inputs: Seq<LazyBlockTransactionInput>, index: int)
    requires
        0 <= index < inputs.len(),
    ensures
        spec_sats_in_through(inputs, index) == spec_inputs_sum(inputs.take(index))
            + inputs[index].txin_value,
{
    assert(inputs.take(index + 1).drop_last() =~= inputs.take(index));
}

/// The running sum of the outputs grows by each output's amount.
pub proof fn lemma_outputs_sum_step(outputs: Seq<u64>, index: int)
    requires
        0 <= index < outputs.len(),
    ensures
        spec_outputs_sum(outputs.take(index + 1)) == spec_outputs_sum(outputs.take(index))
            + outputs[index],
{
    assert(outputs.take(index + 1).drop_last() =~= outputs.take(index));
}

/// What the first `count` outputs hold together.
pub(crate) fn sum_outputs(outputs: &Vec<u64>, count: usize) -> (total: u128)
    requires
        count <= outputs.len(),
    ensures
        total == spec_outputs_sum(outputs@.take(count as int)),
        total <= count * u64::MAX,
{
    let mut total: u128 = 0;
    let mut i: usize = 0;
    assert(outputs@.take(0) =~= Seq::<u64>::empty());
    while i < count
        invariant
            i <= count <= outputs.len(),
            total == spec_outputs_sum(outputs@.take(i as int)),
            total <= i * u64::MAX,
        decreases count - i,
    {
        proof {
            lemma_outputs_sum_step(outputs@, i as int);
        }
        total = total + outputs[i] as u128;
        i = i + 1;
    }
    total
}

/// What the inputs hold together.
fn sum_inputs(inputs: &Vec<LazyBlockTransactionInput>) -> (total: u128)
    ensures
        total == spec_inputs_sum(inputs@),
        total <= inputs.len() * u64::MAX,
{
    let mut total: u128 = 0;
    let mut i: usize = 0;
    assert(inputs@.take(0) =~= Seq::<LazyBlockTransactionInput>::empty());
    while i < inputs.len()
        invariant
            i <= inputs.len(),
            total == spec_inputs_sum(inputs@.take(i as int)),
            total <= i * u64::MAX,
        decreases inputs.len() - i,
    {
        proof {
            lemma_inputs_sum_step(inputs@, i as int);
        }
        total = total + inputs[i].txin_value as u128;
        i = i + 1;
    }
    assert(inputs@.take(inputs.len() as int) =~= inputs@);
    total
}

// ---------------------------------------------------------------------------
// The input that holds a position
// ---------------------------------------------------------------------------
/// Whether a running sum of inputs has come to `target`: beyond it, or, where
/// the bound itself counts, to it.
pub open spec fn spec_reaches(sats_in: int, target: int, inclusive: bool) -> bool {
    sats_in > target || (inclusive && sats_in == target)
}

/// Whether input `index` is the first with which the running sum of the
/// inputs comes to `target`.
pub open spec fn spec_is_reaching_input(
    inputs: Seq<LazyBlockTransactionInput>,
    index: int,
    target: int,
    inclusive: bool,
) -> bool {
    &&& 0 <= index < inputs.len()
    &&& spec_reaches(spec_sats_in_through(inputs, index), target, inclusive)
    &&& forall|j: int|
        0 <= j < index ==> !spec_reaches(
            #[trigger] spec_sats_in_through(inputs, j),
            target,
            inclusive,
        )
}

/// The first input with which the running sum comes to `target`, if the
/// inputs come that far.
pub open spec fn spec_reaching_input(
    inputs: Seq<LazyBlockTransactionInput>,
    target: int,
    inclusive: bool,
) -> Option<int> {
    if exists|index: int| spec_is_reaching_input(inputs, index, target, inclusive) {
        Some(choose|index: int| spec_is_reaching_input(inputs, index, target, inclusive))
    } else {
        None
    }
}

/// There is one first input at most.
pub proof fn lemma_reaching_input_unique(
    inputs: Seq<LazyBlockTransactionInput>,
    index: int,
    target: int,
    inclusive: bool,
)
    requires
        spec_is_reaching_input(inputs, index, target, inclusive),
    ensures
        spec_reaching_input(inputs, target, inclusive) == Some(index),
{
    let other = choose|other: int| spec_is_reaching_input(inputs, other, target, inclusive);
    assert(spec_is_reaching_input(inputs, other, target, inclusive));
    if other < index {
        assert(!spec_reaches(spec_sats_in_through(inputs, other), target, inclusive));
    } else if index < other {
        assert(!spec_reaches(spec_sats_in_through(inputs, index), target, inclusive));
    }
}

/// Where the inputs hold more than `target` together, one of them comes to
/// it.
pub proof fn lemma_reaching_input_exists(
    inputs: Seq<LazyBlockTransactionInput>,
    target: int,
    inclusive: bool,
)
    requires
        spec_reaches(spec_inputs_sum(inputs), target, inclusive),
        inputs.len() > 0,
    ensures
        spec_reaching_input(inputs, target, inclusive) is Some,
    decreases inputs.len(),
{
    let last = inputs.len() - 1;
    assert(inputs.take(last + 1) =~= inputs);
    let init = inputs.drop_last();
    if init.len() > 0 && spec_reaches(spec_inputs_sum(init), target, inclusive) {
        lemma_reaching_input_exists(init, target, inclusive);
        let index = spec_reaching_input(init, target, inclusive)->0;
        assert(spec_is_reaching_input(init, index, target, inclusive));
        assert(init.take(index + 1) =~= inputs.take(index + 1));
        assert forall|j: int| 0 <= j < index implies !spec_reaches(
            #[trigger] spec_sats_in_through(inputs, j),
            target,
            inclusive,
        ) by {
            assert(init.take(j + 1) =~= inputs.take(j + 1));
            assert(!spec_reaches(spec_sats_in_through(init, j), target, inclusive));
        }
        assert(spec_is_reaching_input(inputs, index, target, inclusive));
    } else {
        // No input before the last comes to the target: the running sum only grows.
        assert forall|j: int| 0 <= j < last implies !spec_reaches(
            #[trigger] spec_sats_in_through(inputs, j),
            target,
            inclusive,
        ) by {
            lemma_inputs_sum_monotonic(init, j + 1);
            assert(init.take(j + 1) =~= inputs.take(j + 1));
        }
        assert(spec_is_reaching_input(inputs, last, target, inclusive));
    }
}

/// The running sum of the inputs only grows.
pub proof fn lemma_inputs_sum_monotonic(inputs: Seq<LazyBlockTransactionInput>, count: int)
    requires
        0 <= count <= inputs.len(),
    ensures
        0 <= spec_inputs_sum(inputs.take(count)) <= spec_inputs_sum(inputs),
    decreases inputs.len(),
{
    lemma_inputs_sum_bounds(inputs.take(count));
    if count == inputs.len() {
        assert(inputs.take(count) =~= inputs);
    } else {
        lemma_inputs_sum_monotonic(inputs.drop_last(), count);
        assert(inputs.drop_last().take(count) =~= inputs.take(count));
    }
}

/// Looks for the first input with which the running sum comes to `target`.
/// Gives its index and what the inputs before it hold together; or, where
/// there is none, what all the inputs hold together.
fn find_reaching_input(inputs: &Vec<LazyBlockTransactionInput>, target: u128, inclusive: bool) -> (found:
    (Option<usize>, u128))
    ensures
        found.0 == match spec_reaching_input(inputs@, target as int, inclusive) {
            Some(index) => Some(index as usize),
            None => None,
        },
        found.0 matches Some(index) ==> {
            &&& spec_is_reaching_input(inputs@, index as int, target as int, inclusive)
            &&& found.1 == spec_inputs_sum(inputs@.take(index as int))
        },
        found.0 is None ==> found.1 == spec_inputs_sum(inputs@),
{
    let mut sats_in: u128 = 0;
    let mut i: usize = 0;
    assert(inputs@.take(0) =~= Seq::<LazyBlockTransactionInput>::empty());
    while i < inputs.len()
        invariant
            i <= inputs.len(),
            sats_in == spec_inputs_sum(inputs@.take(i as int)),
            sats_in <= i * u64::MAX,
            forall|j: int|
                0 <= j < i ==> !spec_reaches(
                    #[trigger] spec_sats_in_through(inputs@, j),
                    target as int,
                    inclusive,
                ),
        decreases inputs.len() - i,
    {
        proof {
            lemma_inputs_sum_step(inputs@, i as int);
        }
        let through: u128 = sats_in + inputs[i].txin_value as u128;
        if through > target || (inclusive && through == target) {
            proof {
                lemma_reaching_input_unique(inputs@, i as int, target as int, inclusive);
            }
            return (Some(i), sats_in);
        }
        sats_in = through;
        i = i + 1;
    }
    assert(inputs@.take(inputs.len() as int) =~= inputs@);
    assert(spec_reaching_input(inputs@, target as int, inclusive) is None) by {
        if exists|index: int| spec_is_reaching_input(inputs@, index, target as int, inclusive) {
            let index = choose|index: int|
                spec_is_reaching_input(inputs@, index, target as int, inclusive);
            assert(!spec_reaches(spec_sats_in_through(inputs@, index), target as int, inclusive));
        }
    }
    (None, sats_in)
}

// ---------------------------------------------------------------------------
// A hop through a transaction
// ---------------------------------------------------------------------------
/// The place `position` satoshis into the inputs, where input `index` holds
/// it: in the output that this input spends.
pub open spec fn spec_point_in_input(
    inputs: Seq<LazyBlockTransactionInput>,
    index: int,
    position: int,
) -> SatPoint {
    SatPoint {
        block_height: inputs[index].block_height,
        txid: inputs[index].txin,
        vout: inputs[index].vout as usize,
        offset: (position - spec_inputs_sum(inputs.take(index))) as u64,
    }
}

/// The position, among all the satoshis that a transaction hands out, of
/// the one `offset` satoshis into output `vout`. An output index behind the
/// last output counts all the outputs.
pub open spec fn spec_sats_out(outputs: Seq<u64>, vout: int, offset: int) -> int {
    spec_outputs_sum(
        outputs.take(
            if vout < outputs.len() {
                vout
            } else {
                outputs.len() as int
            },
        ),
    ) + offset
}

/// Where the satoshi `offset` satoshis into output `vout` of `tx` came from:
/// the first input whose running sum exceeds the satoshi's position holds
/// it.
pub open spec fn spec_hop(tx: TransactionView, vout: int, offset: int) -> Hop {
    let sats_out = spec_sats_out(tx.outputs, vout, offset);
    match spec_reaching_input(tx.inputs, sats_out, false) {
        Some(index) => Hop::Next(spec_point_in_input(tx.inputs, index, sats_out)),
        None => if spec_inputs_sum(tx.inputs) == 0 {
            Hop::Degenerate
        } else {
            Hop::Stuck
        },
    }
}

/// **Conservation.** A hop lands inside the input that it goes through: at
/// the chosen input the running sum of the inputs exceeds the position of the
/// satoshi among the outputs, and the new offset is what that position
/// exceeds the inputs before by, which is less than the input holds.
pub proof fn lemma_hop_conserves(tx: TransactionView, vout: int, offset: int)
    requires
        0 <= vout,
        0 <= offset,
    ensures
        spec_hop(tx, vout, offset) matches Hop::Next(next) ==> exists|index: int|
            {
                &&& #[trigger] spec_is_reaching_input(
                    tx.inputs,
                    index,
                    spec_sats_out(tx.outputs, vout, offset),
                    false,
                )
                &&& spec_sats_out(tx.outputs, vout, offset) < spec_sats_in_through(tx.inputs, index)
                &&& next.offset == spec_sats_out(tx.outputs, vout, offset) - (spec_sats_in_through(
                    tx.inputs,
                    index,
                ) - tx.inputs[index].txin_value)
                &&& 0 <= next.offset < tx.inputs[index].txin_value
                &&& next.block_height == tx.inputs[index].block_height
                &&& next.txid == tx.inputs[index].txin
                &&& next.vout == tx.inputs[index].vout
            },
{
    let sats_out = spec_sats_out(tx.outputs, vout, offset);
    lemma_outputs_sum_bounds(tx.outputs.take(vout));
    lemma_outputs_sum_bounds(tx.outputs.take(tx.outputs.len() as int));
    if let Some(index) = spec_reaching_input(tx.inputs, sats_out, false) {
        assert(spec_is_reaching_input(tx.inputs, index, sats_out, false));
        lemma_inputs_sum_step(tx.inputs, index);
        lemma_position_in_input(tx.inputs, index, sats_out, false);
    }
}

/// What a position exceeds the inputs before the one that holds it by is
/// not negative, and no more than that input holds; less, where the bound
/// does not count.
pub proof fn lemma_position_in_input(
    inputs: Seq<LazyBlockTransactionInput>,
    index: int,
    target: int,
    inclusive: bool,
)
    requires
        0 <= target,
        spec_is_reaching_input(inputs, index, target, inclusive),
    ensures
        0 <= target - spec_inputs_sum(inputs.take(index)) <= inputs[index].txin_value,
        !inclusive ==> target - spec_inputs_sum(inputs.take(index)) < inputs[index].txin_value,
{
    lemma_inputs_sum_step(inputs, index);
    if index > 0 {
        assert(!spec_reaches(spec_sats_in_through(inputs, index - 1), target, inclusive));
        assert(inputs.take(index - 1 + 1) =~= inputs.take(index));
    } else {
        assert(inputs.take(0) =~= Seq::<LazyBlockTransactionInput>::empty());
    }
}

/// A hop leads on wherever the inputs hold more than the position of the
/// satoshi among the outputs. It is stuck only behind all that the inputs
/// hold, and degenerate only where they hold nothing.
pub proof fn lemma_hop_leads_on(tx: TransactionView, vout: int, offset: int)
    requires
        0 <= vout,
        0 <= offset,
    ensures
        spec_hop(tx, vout, offset) is Next <==> spec_sats_out(tx.outputs, vout, offset)
            < spec_inputs_sum(tx.inputs),
        spec_hop(tx, vout, offset) is Degenerate <==> spec_inputs_sum(tx.inputs) == 0,
{
    let sats_out = spec_sats_out(tx.outputs, vout, offset);
    lemma_outputs_sum_bounds(tx.outputs.take(vout));
    lemma_outputs_sum_bounds(tx.outputs.take(tx.outputs.len() as int));
    lemma_inputs_sum_bounds(tx.inputs);
    if sats_out < spec_inputs_sum(tx.inputs) {
        if tx.inputs.len() == 0 {
            assert(spec_inputs_sum(tx.inputs) == 0);
        }
        lemma_reaching_input_exists(tx.inputs, sats_out, false);
    } else if let Some(index) = spec_reaching_input(tx.inputs, sats_out, false) {
        assert(spec_is_reaching_input(tx.inputs, index, sats_out, false));
        lemma_inputs_sum_monotonic(tx.inputs, index + 1);
    }
}

/// A satoshi of a fee is held by an input of the transaction that paid
/// the fee.
pub proof fn lemma_fee_is_held_by_an_input(tx: TransactionView, offset_within_fee: int)
    requires
        0 <= offset_within_fee < spec_fee(tx),
    ensures
        spec_point_in_fee(tx, offset_within_fee) is Found,
{
    let total_out = spec_outputs_sum(tx.outputs) + offset_within_fee;
    if tx.inputs.len() == 0 {
        assert(spec_inputs_sum(tx.inputs) == 0);
        lemma_outputs_sum_bounds(tx.outputs);
    }
    lemma_reaching_input_exists(tx.inputs, total_out, true);
}

/// **Monotonicity.** Where every input of a transaction spends an output of
/// an earlier block, a hop through the transaction leads to an earlier block.
pub proof fn lemma_hop_goes_back(tx: TransactionView, vout: int, offset: int, height: int)
    requires
        forall|i: int| 0 <= i < tx.inputs.len() ==> (#[trigger] tx.inputs[i]).block_height < height,
    ensures
        spec_hop(tx, vout, offset) matches Hop::Next(next) ==> next.block_height < height,
{
    let sats_out = spec_sats_out(tx.outputs, vout, offset);
    if let Some(index) = spec_reaching_input(tx.inputs, sats_out, false) {
        assert(spec_is_reaching_input(tx.inputs, index, sats_out, false));
    }
}

/// **Monotonicity, among the fees.** Where every input of every
/// transaction spends an output of an earlier block, the search among the
/// fees leads to an earlier block.
pub proof fn lemma_fee_scan_goes_back(
    txs: Seq<TransactionView>,
    from: int,
    accumulated: int,
    offset: int,
    height: int,
)
    requires
        0 <= from,
        forall|t: int, k: int|
            0 <= t < txs.len() && 0 <= k < txs[t].inputs.len() ==> (#[trigger] txs[t].inputs[k]).block_height
                < height,
    ensures
        spec_fee_scan(txs, from, accumulated, offset) matches FeeResolution::Found(next)
            ==> next.block_height < height,
    decreases txs.len() - from,
{
    if from < txs.len() {
        let tx = txs[from];
        if spec_fee(tx) >= 0 {
            if accumulated + spec_fee(tx) > offset {
                let total_out = spec_outputs_sum(tx.outputs) + (offset - accumulated);
                if let Some(index) = spec_reaching_input(tx.inputs, total_out, true) {
                    assert(spec_is_reaching_input(tx.inputs, index, total_out, true));
                    assert(txs[from].inputs[index].block_height < height);
                }
            } else {
                lemma_fee_scan_goes_back(txs, from + 1, accumulated + spec_fee(tx), offset, height);
            }
        }
    }
}

/// Follows the satoshi `ordinal_offset` satoshis into output `vout` of `tx`
/// back through the input that brought it in.
pub fn hop_through_transaction(tx: &LazyBlockTransaction, vout: usize, ordinal_offset: u64) -> (hop:
    Hop)
    ensures
        hop == spec_hop(tx@, vout as int, ordinal_offset as int),
{
    let count: usize = if vout < tx.outputs.len() {
        vout
    } else {
        tx.outputs.len()
    };
    let sats_out: u128 = sum_outputs(&tx.outputs, count) + ordinal_offset as u128;
    let (found, sats_before) = find_reaching_input(&tx.inputs, sats_out, false);
    match found {
        Some(index) => {
            proof {
                lemma_position_in_input(tx.inputs@, index as int, sats_out as int, false);
            }
            let input = &tx.inputs[index];
            Hop::Next(
                SatPoint {
                    block_height: input.block_height,
                    txid: input.txin,
                    vout: input.vout as usize,
                    offset: (sats_out - sats_before) as u64,
                },
            )
        },
        None => {
            if sats_before == 0 {
                Hop::Degenerate
            } else {
                Hop::Stuck
            }
        },
    }
}

// ---------------------------------------------------------------------------
// A satoshi among the fees of a block
// ---------------------------------------------------------------------------
/// The place in the inputs of `tx` of the satoshi `offset_within_fee`
/// satoshis into its fee: behind all that the outputs take. The first input
/// whose running sum comes to that position holds it.
pub open spec fn spec_point_in_fee(tx: TransactionView, offset_within_fee: int) -> FeeResolution {
    let total_out = spec_outputs_sum(tx.outputs) + offset_within_fee;
    match spec_reaching_input(tx.inputs, total_out, true) {
        Some(index) => FeeResolution::Found(spec_point_in_input(tx.inputs, index, total_out)),
        None => FeeResolution::NotFound,
    }
}

/// Walks the transactions from `from` on, in block order, with `accumulated`
/// satoshis in the coinbase before them, and looks for the one whose fee
/// holds the satoshi at `offset` of the coinbase.
pub open spec fn spec_fee_scan(
    txs: Seq<TransactionView>,
    from: int,
    accumulated: int,
    offset: int,
) -> FeeResolution
    decreases txs.len() - from,
{
    if from < 0 || from >= txs.len() {
        FeeResolution::NotFound
    } else if spec_fee(txs[from]) < 0 {
        FeeResolution::NegativeFee
    } else if accumulated + spec_fee(txs[from]) > offset {
        spec_point_in_fee(txs[from], offset - accumulated)
    } else {
        spec_fee_scan(txs, from + 1, accumulated + spec_fee(txs[from]), offset)
    }
}

/// Where the satoshi at `offset` of the coinbase came from, when it is not
/// of the subsidy: the coinbase holds the subsidy first, and then the fees of
/// the transactions in block order.
pub open spec fn spec_resolve_fee(txs: Seq<TransactionView>, subsidy: int, offset: int) -> FeeResolution {
    spec_fee_scan(txs, 0, subsidy, offset)
}

/// What the transactions before transaction `index` leave to the coinbase
/// together.
pub open spec fn spec_fees_before(txs: Seq<TransactionView>, index: int) -> int
    decreases index,
{
    if index <= 0 {
        0
    } else {
        spec_fees_before(txs, index - 1) + spec_fee(txs[index - 1])
    }
}

/// Where no transaction hands out more than it takes in, the fees only
/// add up.
pub proof fn lemma_fees_before_monotonic(txs: Seq<TransactionView>, from: int, to: int)
    requires
        0 <= from <= to <= txs.len(),
        forall|u: int| from <= u < to ==> spec_fee(#[trigger] txs[u]) >= 0,
    ensures
        spec_fees_before(txs, from) <= spec_fees_before(txs, to),
    decreases to - from,
{
    if from < to {
        lemma_fees_before_monotonic(txs, from, to - 1);
        assert(spec_fee(txs[to - 1]) >= 0);
    }
}

/// The walk over the fees from transaction `from` on ends in transaction
/// `index`, where the satoshi is of the fee of that transaction.
pub proof fn lemma_fee_scan_finds(
    txs: Seq<TransactionView>,
    from: int,
    accumulated: int,
    offset: int,
    index: int,
)
    requires
        0 <= from <= index < txs.len(),
        forall|u: int| from <= u <= index ==> spec_fee(#[trigger] txs[u]) >= 0,
        accumulated + spec_fees_before(txs, index) - spec_fees_before(txs, from) <= offset,
        offset < accumulated + spec_fees_before(txs, index + 1) - spec_fees_before(txs, from),
    ensures
        spec_fee_scan(txs, from, accumulated, offset) == spec_point_in_fee(
            txs[index],
            offset - accumulated - (spec_fees_before(txs, index) - spec_fees_before(txs, from)),
        ),
    decreases index - from,
{
    assert(spec_fee(txs[from]) >= 0);
    if from < index {
        lemma_fees_before_monotonic(txs, from + 1, index);
        lemma_fee_scan_finds(txs, from + 1, accumulated + spec_fee(txs[from]), offset, index);
    }
}

/// **The fees of a block.** The coinbase holds the subsidy and then the
/// fee of each transaction, in block order. Where no transaction up to
/// that one hands out more than it takes in, the satoshi at `offset` of the
/// coinbase that stands in the fee of transaction `index` is found in an
/// input of that transaction, as far into its fee as it stands behind the
/// subsidy and the fees before.
pub proof fn lemma_fee_resolution(txs: Seq<TransactionView>, subsidy: int, offset: int, index: int)
    requires
        0 <= index < txs.len(),
        forall|u: int| 0 <= u <= index ==> spec_fee(#[trigger] txs[u]) >= 0,
        subsidy + spec_fees_before(txs, index) <= offset < subsidy + spec_fees_before(
            txs,
            index + 1,
        ),
    ensures
        spec_resolve_fee(txs, subsidy, offset) == spec_point_in_fee(
            txs[index],
            offset - subsidy - spec_fees_before(txs, index),
        ),
        spec_resolve_fee(txs, subsidy, offset) is Found,
{
    lemma_fee_scan_finds(txs, 0, subsidy, offset, index);
    lemma_fee_is_held_by_an_input(txs[index], offset - subsidy - spec_fees_before(txs, index));
}

/// Looks among the fees of `block` for the satoshi at `ordinal_offset` of
/// its coinbase, which holds `subsidy` satoshis before the fees.
pub fn resolve_fee_range(block: &LazyBlock, subsidy: u64, ordinal_offset: u64) -> (resolution:
    FeeResolution)
    requires
        block.wf(),
        subsidy <= ordinal_offset,
    ensures
        resolution == spec_resolve_fee(
            block@.transactions,
            subsidy as int,
            ordinal_offset as int,
        ),
{
    let mut accumulated_fees: u64 = subsidy;
    let mut iter = block.iter_tx();
    let mut t: u16 = 0;
    let ghost txs = block@.transactions;
    while t < block.tx_len
        invariant
            block.wf(),
            iter.wf(),
            iter.block() == block,
            iter.position() == t,
            t <= block.tx_len,
            txs == block@.transactions,
            txs.len() == block.tx_len,
            accumulated_fees <= ordinal_offset,
            spec_resolve_fee(txs, subsidy as int, ordinal_offset as int) == spec_fee_scan(
                txs,
                t as int,
                accumulated_fees as int,
                ordinal_offset as int,
            ),
        decreases block.tx_len - t,
    {
        let tx = match iter.next() {
            Some(tx) => tx,
            None => {
                assert(false);
                return FeeResolution::NotFound;
            },
        };
        assert(tx@ == txs[t as int]);
        match fee_step(&tx, accumulated_fees, ordinal_offset) {
            Ok(resolution) => {
                return resolution;
            },
            Err(accumulated) => {
                accumulated_fees = accumulated;
            },
        }
        t = t + 1;
    }
    FeeResolution::NotFound
}

/// One transaction of the walk over the fees of a block, with
/// `accumulated_fees` satoshis in the coinbase before its fee. Either the
/// walk ends here, or it goes on with what the coinbase holds behind this
/// fee.
pub(crate) fn fee_step(tx: &LazyBlockTransaction, accumulated_fees: u64, ordinal_offset: u64) -> (step:
    Result<FeeResolution, u64>)
    requires
        accumulated_fees <= ordinal_offset,
    ensures
        step matches Ok(resolution) ==> {
            &&& spec_fee(tx@) < 0 || accumulated_fees + spec_fee(tx@) > ordinal_offset
            &&& spec_fee(tx@) < 0 ==> resolution == FeeResolution::NegativeFee
            &&& spec_fee(tx@) >= 0 ==> resolution == spec_point_in_fee(
                tx@,
                ordinal_offset - accumulated_fees,
            )
        },
        step matches Err(accumulated) ==> {
            &&& spec_fee(tx@) >= 0
            &&& accumulated == accumulated_fees + spec_fee(tx@)
            &&& accumulated <= ordinal_offset
        },
{
    let total_in: u128 = sum_inputs(&tx.inputs);
    let total_out: u128 = sum_outputs(&tx.outputs, tx.outputs.len());
    assert(tx.outputs@.take(tx.outputs.len() as int) =~= tx.outputs@);
    if total_out > total_in {
        return Ok(FeeResolution::NegativeFee);
    }
    let fee: u128 = total_in - total_out;
    if accumulated_fees as u128 + fee > ordinal_offset as u128 {
        // The satoshi is of the fee of this transaction.
        let offset_within_fee: u128 = (ordinal_offset - accumulated_fees) as u128;
        let position: u128 = total_out + offset_within_fee;
        let (found, sats_before) = find_reaching_input(&tx.inputs, position, true);
        return Ok(
            match found {
                Some(index) => {
                    proof {
                        lemma_position_in_input(tx.inputs@, index as int, position as int, true);
                    }
                    let input = &tx.inputs[index];
                    FeeResolution::Found(
                        SatPoint {
                            block_height: input.block_height,
                            txid: input.txin,
                            vout: input.vout as usize,
                            offset: (position - sats_before) as u64,
                        },
                    )
                },
                None => FeeResolution::NotFound,
            },
        );
    }
    Err((accumulated_fees as u128 + fee) as u64)
}

} // verus!
