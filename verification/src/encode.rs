//! Packing a block that comes in.

use vstd::prelude::*;
use std::collections::HashSet;
use crate::block::LazyBlock;
use crate::bytes::{
    lemma_u64_from_be_round_trip, read_u64_be, spec_u64_from_be,
};
use crate::compacted::{
    compacted_input, compacted_inputs, compacted_transaction, compacted_transactions,
    CompactedBlock,
};
use crate::error::EncodeError;
use crate::hop::sum_outputs;
use crate::layout::{encodable, packed_bytes};
use crate::record::{
    spec_block_txids, spec_fields_fit, spec_full_packing_error, spec_input_fits,
    spec_input_txid_valid, spec_inputs_txids_valid, spec_packed_block, spec_packed_input,
    spec_packed_transaction, spec_packing_error, spec_transaction_txid_valid, spec_txids_valid,
    FullBlock, FullInput, FullTransaction, InputRecord, StandardizedBlock, StandardizedInput,
    StandardizedTransaction,
};
use crate::round_trip::lemma_round_trip;
use crate::txid::txid_prefix;

verus! {

broadcast use vstd::std_specs::hash::group_hash_axioms;

/// What is kept of an input, where its identifier is valid and its height
/// and output index fit their fields.
fn compact_input(input: &StandardizedInput) -> (kept: Option<([u8; 8], u32, u16, u64)>)
    ensures
        kept is Some <==> spec_input_txid_valid(input@) && spec_input_fits(input@),
        kept matches Some(tuple) ==> compacted_input(tuple) == spec_packed_input(input@),
{
    let txin: [u8; 8] = match txid_prefix(input.txid.as_str()) {
        Some(txin) => txin,
        None => {
            return None;
        },
    };
    if input.block_height > u32::MAX as u64 || input.vout > u16::MAX as u32 {
        return None;
    }
    assert(txin =~= spec_packed_input(input@).txin);
    Some((txin, input.block_height as u32, input.vout as u16, input.value))
}

/// What is kept of the inputs of a transaction, where every one of them can
/// be kept.
fn compact_inputs(inputs: &Vec<StandardizedInput>) -> (kept: Option<Vec<([u8; 8], u32, u16, u64)>>)
    ensures
        kept is Some <==> forall|k: int|
            0 <= k < inputs.len() ==> spec_input_txid_valid((#[trigger] inputs[k])@)
                && spec_input_fits(inputs[k]@),
        kept matches Some(tuples) ==> compacted_inputs(tuples@) == inputs@.map_values(
            |input: StandardizedInput| spec_packed_input(input@),
        ),
{
    let mut tuples: Vec<([u8; 8], u32, u16, u64)> = Vec::with_capacity(inputs.len());
    let mut k: usize = 0;
    while k < inputs.len()
        invariant
            k <= inputs.len(),
            tuples.len() == k,
            forall|j: int|
                0 <= j < k ==> spec_input_txid_valid((#[trigger] inputs[j])@) && spec_input_fits(
                    inputs[j]@,
                ),
            forall|j: int|
                0 <= j < k ==> compacted_input(#[trigger] tuples[j]) == spec_packed_input(
                    inputs[j]@,
                ),
        decreases inputs.len() - k,
    {
        match compact_input(&inputs[k]) {
            Some(tuple) => {
                tuples.push(tuple);
            },
            None => {
                return None;
            },
        }
        k = k + 1;
    }
    assert(compacted_inputs(tuples@) =~= inputs@.map_values(
        |input: StandardizedInput| spec_packed_input(input@),
    ));
    Some(tuples)
}

/// What is kept of a transaction, where its identifier is valid and every
/// input can be kept.
fn compact_transaction(tx: &StandardizedTransaction) -> (kept: Option<
    ([u8; 8], Vec<([u8; 8], u32, u16, u64)>, Vec<u64>),
>)
    ensures
        kept is Some <==> {
            &&& spec_transaction_txid_valid(tx@)
            &&& spec_inputs_txids_valid(tx@)
            &&& forall|k: int| 0 <= k < tx@.inputs.len() ==> spec_input_fits(#[trigger] tx@.inputs[k])
        },
        kept matches Some(tuple) ==> compacted_transaction(tuple) == spec_packed_transaction(tx@),
{
    let txid: [u8; 8] = match txid_prefix(tx.txid.as_str()) {
        Some(txid) => txid,
        None => {
            return None;
        },
    };
    assert(txid =~= spec_packed_transaction(tx@).txid);
    assert forall|k: int| 0 <= k < tx.inputs.len() implies (#[trigger] tx@.inputs[k])
        == tx.inputs[k]@ by {}
    let inputs = match compact_inputs(&tx.inputs) {
        Some(inputs) => inputs,
        None => {
            let ghost k = choose|k: int|
                0 <= k < tx.inputs.len() && !(spec_input_txid_valid((#[trigger] tx.inputs[k])@)
                    && spec_input_fits(tx.inputs[k]@));
            assert(tx@.inputs[k] == tx.inputs[k]@);
            return None;
        },
    };
    assert forall|k: int| 0 <= k < tx@.inputs.len() implies spec_input_txid_valid(
        #[trigger] tx@.inputs[k],
    ) && spec_input_fits(tx@.inputs[k]) by {
        assert(tx@.inputs[k] == tx.inputs[k]@);
    }
    let outputs = tx.outputs.clone();
    assert(outputs@ =~= tx.outputs@);
    assert(compacted_inputs(inputs@) =~= spec_packed_transaction(tx@).inputs);
    Some((txid, inputs, outputs))
}

/// Whether everything that is kept of the parts of a block can be kept: the
/// identifiers are valid, and the coinbase's value and each input's height
/// and output index fit their fields.
pub open spec fn spec_parts_fit(block: StandardizedBlock) -> bool {
    &&& spec_txids_valid(block@)
    &&& crate::hop::spec_outputs_sum(block@.transactions[0].outputs) <= u64::MAX
    &&& forall|t: int|
        1 <= t < block@.transactions.len() ==> forall|k: int|
            0 <= k < (#[trigger] block@.transactions[t]).inputs.len() ==> spec_input_fits(
                #[trigger] block@.transactions[t].inputs[k],
            )
}

/// The eager form of a block, where its parts can be kept.
fn compact_block(block: &StandardizedBlock) -> (kept: Option<CompactedBlock>)
    requires
        block.transactions.len() >= 1,
    ensures
        kept is Some <==> spec_parts_fit(*block),
        kept matches Some(compacted) ==> compacted@ == spec_packed_block(block@),
{
    let txs = &block.transactions;
    let coinbase = &txs[0];
    assert(block@.transactions[0] == coinbase@);
    let coinbase_txid: [u8; 8] = match txid_prefix(coinbase.txid.as_str()) {
        Some(txid) => txid,
        None => {
            return None;
        },
    };
    assert(coinbase_txid =~= spec_packed_block(block@).coinbase_txid);
    let total: u128 = sum_outputs(&coinbase.outputs, coinbase.outputs.len());
    assert(coinbase.outputs@.take(coinbase.outputs.len() as int) =~= coinbase.outputs@);
    if total > u64::MAX as u128 {
        return None;
    }
    let mut kept: Vec<([u8; 8], Vec<([u8; 8], u32, u16, u64)>, Vec<u64>)> = Vec::with_capacity(
        txs.len() - 1,
    );
    let mut t: usize = 1;
    while t < txs.len()
        invariant
            1 <= t <= txs.len(),
            txs == &block.transactions,
            kept.len() == t - 1,
            forall|j: int|
                1 <= j < t ==> {
                    &&& spec_transaction_txid_valid(#[trigger] block@.transactions[j])
                    &&& spec_inputs_txids_valid(block@.transactions[j])
                    &&& forall|k: int|
                        0 <= k < block@.transactions[j].inputs.len() ==> spec_input_fits(
                            #[trigger] block@.transactions[j].inputs[k],
                        )
                },
            forall|j: int|
                1 <= j < t ==> compacted_transaction(#[trigger] kept[j - 1])
                    == spec_packed_transaction(block@.transactions[j]),
        decreases txs.len() - t,
    {
        assert(block@.transactions[t as int] == txs[t as int]@);
        match compact_transaction(&txs[t]) {
            Some(tuple) => {
                kept.push(tuple);
            },
            None => {
                return None;
            },
        }
        t = t + 1;
    }
    let compacted = CompactedBlock(((coinbase_txid, total as u64), kept));
    assert(compacted@.transactions =~= spec_packed_block(block@).transactions) by {
        assert forall|j: int| 0 <= j < kept.len() implies compacted_transactions(kept@)[j]
            == spec_packed_block(block@).transactions[j] by {
            assert(compacted_transaction(kept[j + 1 - 1]) == spec_packed_transaction(
                block@.transactions[j + 1],
            ));
        }
    }
    Some(compacted)
}

/// Whether every identifier that is kept of a block is hexadecimal and long
/// enough.
fn txids_valid(block: &StandardizedBlock) -> (valid: bool)
    ensures
        valid == spec_txids_valid(block@),
{
    let txs = &block.transactions;
    let mut t: usize = 0;
    while t < txs.len()
        invariant
            t <= txs.len(),
            txs == &block.transactions,
            forall|j: int| 0 <= j < t ==> spec_transaction_txid_valid(#[trigger] block@.transactions[j]),
            forall|j: int| 1 <= j < t ==> spec_inputs_txids_valid(#[trigger] block@.transactions[j]),
        decreases txs.len() - t,
    {
        let tx = &txs[t];
        assert(block@.transactions[t as int] == tx@);
        if txid_prefix(tx.txid.as_str()).is_none() {
            return false;
        }
        if t >= 1 {
            let mut k: usize = 0;
            while k < tx.inputs.len()
                invariant
                    k <= tx.inputs.len(),
                    1 <= t < block@.transactions.len(),
                    block@.transactions[t as int] == tx@,
                    forall|j: int| 0 <= j < k ==> spec_input_txid_valid(#[trigger] tx@.inputs[j]),
                decreases tx.inputs.len() - k,
            {
                assert(tx@.inputs[k as int] == tx.inputs[k as int]@);
                if txid_prefix(tx.inputs[k].txid.as_str()).is_none() {
                    assert(!spec_inputs_txids_valid(block@.transactions[t as int]));
                    return false;
                }
                k = k + 1;
            }
        }
        t = t + 1;
    }
    true
}

/// The number that eight bytes spell tells them from any other eight.
proof fn lemma_txid_key_injective(a: Seq<u8>, b: Seq<u8>)
    requires
        a.len() == 8,
        b.len() == 8,
        spec_u64_from_be(a) == spec_u64_from_be(b),
    ensures
        a == b,
{
    lemma_u64_from_be_round_trip(a);
    lemma_u64_from_be_round_trip(b);
}

impl CompactedBlock {
    /// Whether two transactions of the block, the coinbase among them,
    /// share their identifier prefix.
    pub fn has_txid_collision(&self) -> (collision: bool)
        ensures
            collision == !spec_block_txids(self@).no_duplicates(),
    {
        let ghost ids = spec_block_txids(self@);
        let txs = &self.0.1;
        let mut seen: HashSet<u64> = HashSet::new();
        seen.insert(read_u64_be(self.0.0.0.as_slice(), 0));
        assert(self.0.0.0@.subrange(0, 8) =~= ids[0]);
        let mut t: usize = 0;
        while t < txs.len()
            invariant
                t <= txs.len(),
                txs == &self.0.1,
                ids == spec_block_txids(self@),
                ids.len() == txs.len() + 1,
                forall|i: int| 0 <= i < ids.len() ==> (#[trigger] ids[i]).len() == 8,
                forall|i: int, j: int| 0 <= i < j <= t ==> ids[i] != ids[j],
                forall|key: u64|
                    seen@.contains(key) <==> exists|i: int|
                        0 <= i <= t && key == spec_u64_from_be(#[trigger] ids[i]),
            decreases txs.len() - t,
        {
            let txid = &txs[t].0;
            assert(txid@ == ids[t + 1]) by {
                assert(self@.transactions[t as int] == compacted_transaction(txs[t as int]));
            }
            assert(txid@.subrange(0, 8) =~= txid@);
            let key: u64 = read_u64_be(txid.as_slice(), 0);
            let fresh = seen.insert(key);
            if !fresh {
                proof {
                    let i = choose|i: int|
                        0 <= i <= t && key == spec_u64_from_be(#[trigger] ids[i]);
                    lemma_txid_key_injective(ids[i], ids[t + 1]);
                    assert(ids[i] == ids[t + 1]);
                }
                return true;
            }
            proof {
                assert forall|i: int| 0 <= i < t + 1 implies (#[trigger] ids[i]) != ids[t + 1] by {
                    if ids[i] == ids[t + 1] {
                        assert(key == spec_u64_from_be(ids[i]));
                    }
                }
            }
            t = t + 1;
        }
        false
    }
}

impl LazyBlock {
    /// Packs a block whose inputs are resolved.
    ///
    /// Kept are the first eight bytes of each identifier, what the
    /// outputs of the coinbase hold together, and of every other transaction
    /// the inputs and the amounts of the outputs.
    pub fn from_standardized_block(block: &StandardizedBlock) -> (packed: Result<
        LazyBlock,
        EncodeError,
    >)
        ensures
            packed is Ok <==> spec_packing_error(block@) is None,
            packed matches Err(error) ==> Some(error) == spec_packing_error(block@),
            packed matches Ok(lazy_block) ==> {
                &&& lazy_block.wf()
                &&& lazy_block.bytes@ == packed_bytes(spec_packed_block(block@))
                &&& lazy_block@ == spec_packed_block(block@)
            },
    {
        if block.transactions.len() == 0 {
            return Err(EncodeError::MissingCoinbase);
        }
        let compacted = match compact_block(block) {
            Some(compacted) => compacted,
            None => {
                if !txids_valid(block) {
                    return Err(EncodeError::InvalidTxid);
                }
                proof {
                    lemma_parts_that_do_not_fit(*block);
                }
                return Err(EncodeError::FieldOverflow);
            },
        };
        let mut buffer: Vec<u8> = Vec::new();
        proof {
            lemma_counts_fit(*block);
        }
        match compacted.serialize_to_lazy_format(&mut buffer) {
            Ok(()) => {},
            Err(_) => {
                return Err(EncodeError::FieldOverflow);
            },
        }
        if compacted.has_txid_collision() {
            return Err(EncodeError::TxidPrefixCollision);
        }
        proof {
            lemma_round_trip(compacted@);
            assert(buffer@ =~= packed_bytes(compacted@));
        }
        Ok(LazyBlock::new(buffer))
    }
}

/// The input with the output that it spends, where it names one.
fn resolve_input(input: &FullInput) -> (resolved: Option<StandardizedInput>)
    ensures
        resolved is Some <==> input.is_resolved(),
        resolved matches Some(standardized) ==> standardized@ == input.resolved(),
{
    match (&input.txid, &input.vout, &input.prevout) {
        (Some(txid), Some(vout), Some(prevout)) => Some(
            StandardizedInput {
                txid: txid.clone(),
                vout: *vout,
                block_height: prevout.height,
                value: prevout.value,
            },
        ),
        _ => None,
    }
}

/// The transaction with its inputs resolved, where every one of them names
/// the output that it spends. Of a coinbase no input is kept.
fn resolve_transaction(tx: &FullTransaction, is_coinbase: bool) -> (resolved: Option<
    StandardizedTransaction,
>)
    ensures
        is_coinbase ==> resolved is Some && resolved->0@ == tx.with_inputs(Seq::empty()),
        !is_coinbase ==> (resolved is Some <==> tx.is_resolved()),
        !is_coinbase && resolved is Some ==> resolved->0@ == tx.resolved(),
{
    let mut inputs: Vec<StandardizedInput> = Vec::new();
    if !is_coinbase {
        let mut k: usize = 0;
        while k < tx.vin.len()
            invariant
                !is_coinbase,
                k <= tx.vin.len(),
                inputs.len() == k,
                forall|j: int| 0 <= j < k ==> (#[trigger] tx.vin[j]).is_resolved(),
                forall|j: int| 0 <= j < k ==> (#[trigger] inputs[j])@ == tx.vin[j].resolved(),
            decreases tx.vin.len() - k,
        {
            match resolve_input(&tx.vin[k]) {
                Some(input) => {
                    inputs.push(input);
                },
                None => {
                    return None;
                },
            }
            k = k + 1;
        }
    }
    let outputs = tx.vout.clone();
    assert(outputs@ =~= tx.vout@);
    let resolved = StandardizedTransaction { txid: tx.txid.clone(), inputs, outputs };
    proof {
        if is_coinbase {
            assert(resolved@.inputs =~= Seq::<InputRecord>::empty());
        } else {
            assert(resolved@.inputs =~= tx.resolved().inputs);
        }
    }
    Some(resolved)
}

/// The block with its inputs resolved, where every input of a transaction
/// that is not the coinbase names the output that it spends.
fn resolve_block(block: &FullBlock) -> (resolved: Option<StandardizedBlock>)
    ensures
        resolved is Some <==> block.is_resolved(),
        resolved matches Some(standardized) ==> standardized@ == block.resolved(),
{
    let mut transactions: Vec<StandardizedTransaction> = Vec::with_capacity(block.tx.len());
    let mut t: usize = 0;
    while t < block.tx.len()
        invariant
            t <= block.tx.len(),
            transactions.len() == t,
            forall|j: int| 1 <= j < t ==> (#[trigger] block.tx[j]).is_resolved(),
            forall|j: int|
                0 <= j < t ==> (#[trigger] transactions[j])@ == block.resolved().transactions[j],
        decreases block.tx.len() - t,
    {
        match resolve_transaction(&block.tx[t], t == 0) {
            Some(tx) => {
                transactions.push(tx);
            },
            None => {
                return None;
            },
        }
        t = t + 1;
    }
    let standardized = StandardizedBlock { transactions };
    assert(standardized@.transactions =~= block.resolved().transactions);
    Some(standardized)
}

impl LazyBlock {
    /// Packs a block as a node hands it out.
    ///
    /// Every input of a transaction that is not the coinbase has to come
    /// with the output that it spends, and with the height and the amount of
    /// that output. The block is then packed as
    /// [`LazyBlock::from_standardized_block`] packs it.
    pub fn from_full_block(block: &FullBlock) -> (packed: Result<LazyBlock, EncodeError>)
        ensures
            packed is Ok <==> spec_full_packing_error(*block) is None,
            packed matches Err(error) ==> Some(error) == spec_full_packing_error(*block),
            packed matches Ok(lazy_block) ==> {
                &&& lazy_block.wf()
                &&& lazy_block.bytes@ == packed_bytes(spec_packed_block(block.resolved()))
                &&& lazy_block@ == spec_packed_block(block.resolved())
            },
    {
        if block.tx.len() == 0 {
            return Err(EncodeError::MissingCoinbase);
        }
        match resolve_block(block) {
            Some(standardized) => LazyBlock::from_standardized_block(&standardized),
            None => Err(EncodeError::MissingPrevout),
        }
    }
}

/// Where the identifiers of a block are valid and its parts cannot be
/// kept, a value is too large for its field.
proof fn lemma_parts_that_do_not_fit(block: StandardizedBlock)
    requires
        block@.transactions.len() >= 1,
        spec_txids_valid(block@),
        !spec_parts_fit(block),
    ensures
        !spec_fields_fit(block@),
{
    if crate::hop::spec_outputs_sum(block@.transactions[0].outputs) <= u64::MAX {
        let t = choose|t: int|
            1 <= t < block@.transactions.len() && !(forall|k: int|
                0 <= k < (#[trigger] block@.transactions[t]).inputs.len() ==> spec_input_fits(
                    #[trigger] block@.transactions[t].inputs[k],
                ));
        assert(!crate::record::spec_transaction_fits(block@.transactions[t]));
    }
}

/// Where the parts of a block can be kept, everything fits if and only if
/// the counts do.
proof fn lemma_counts_fit(block: StandardizedBlock)
    requires
        block@.transactions.len() >= 1,
        spec_parts_fit(block),
    ensures
        spec_fields_fit(block@) <==> encodable(spec_packed_block(block@)),
{
    let record = block@;
    let view = spec_packed_block(record);
    assert(view.transactions.len() == record.transactions.len() - 1);
    if spec_fields_fit(record) {
        assert forall|i: int| 0 <= i < view.transactions.len() implies {
            &&& (#[trigger] view.transactions[i]).inputs.len() <= u16::MAX
            &&& view.transactions[i].outputs.len() <= u16::MAX
        } by {
            assert(crate::record::spec_transaction_fits(record.transactions[i + 1]));
            assert(view.transactions[i] == spec_packed_transaction(record.transactions[i + 1]));
        }
    }
    if encodable(view) {
        assert forall|t: int| 1 <= t < record.transactions.len() implies crate::record::spec_transaction_fits(
            #[trigger] record.transactions[t],
        ) by {
            assert(view.transactions[t - 1] == spec_packed_transaction(record.transactions[t]));
            assert(view.transactions[t - 1].inputs.len() <= u16::MAX);
        }
    }
}

} // verus!
