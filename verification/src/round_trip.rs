//! Packing a block and reading the bytes back gives the block.
//!
//! The proof goes from the small to the large: an input, a run of inputs, a
//! run of outputs, a transaction, the directory, and then the whole block.

use vstd::prelude::*;
use crate::bytes::{
    lemma_u16_be_round_trip, lemma_u32_be_round_trip, lemma_u64_be_round_trip, spec_u16_be,
    spec_u32_be, spec_u64_at, spec_u64_be,
};
use crate::block::LazyBlockTransactionInput;
use crate::layout::{
    decoded_block, directory_bytes, directory_entry, encodable, input_bytes, inputs_bytes,
    outputs_bytes, packed_bytes, spec_coinbase_pos, spec_input_at, spec_inputs_at,
    spec_inputs_len, spec_outputs_at, spec_outputs_len, spec_transaction, spec_transaction_at,
    spec_transactions_pos, spec_tx_count, spec_tx_offset, spec_tx_size, spec_txid_at,
    transaction_bytes, transactions_bytes, well_formed, BlockView, TransactionView,
};

verus! {

/// The number of bytes that the first `index` of `txs` take when packed.
pub open spec fn packed_offset(txs: Seq<TransactionView>, index: int) -> int {
    transactions_bytes(txs.take(index)).len() as int
}

// ---------------------------------------------------------------------------
// Lengths
// ---------------------------------------------------------------------------
/// An input takes twenty-two bytes.
pub proof fn lemma_input_bytes_len(input: LazyBlockTransactionInput)
    ensures
        input_bytes(input).len() == 22,
{
}

/// A run of inputs takes twenty-two bytes for each.
pub proof fn lemma_inputs_bytes_len(inputs: Seq<LazyBlockTransactionInput>)
    ensures
        inputs_bytes(inputs).len() == 22 * inputs.len(),
    decreases inputs.len(),
{
    if inputs.len() > 0 {
        lemma_inputs_bytes_len(inputs.drop_last());
    }
}

/// A run of outputs takes eight bytes for each.
pub proof fn lemma_outputs_bytes_len(outputs: Seq<u64>)
    ensures
        outputs_bytes(outputs).len() == 8 * outputs.len(),
    decreases outputs.len(),
{
    if outputs.len() > 0 {
        lemma_outputs_bytes_len(outputs.drop_last());
    }
}

/// A transaction takes its identifier prefix, its inputs and its outputs.
pub proof fn lemma_transaction_bytes_len(tx: TransactionView)
    ensures
        transaction_bytes(tx).len() == 8 + 22 * tx.inputs.len() + 8 * tx.outputs.len(),
{
    lemma_inputs_bytes_len(tx.inputs);
    lemma_outputs_bytes_len(tx.outputs);
}

/// The directory takes four bytes for each transaction.
pub proof fn lemma_directory_bytes_len(txs: Seq<TransactionView>)
    ensures
        directory_bytes(txs).len() == 4 * txs.len(),
    decreases txs.len(),
{
    if txs.len() > 0 {
        lemma_directory_bytes_len(txs.drop_last());
    }
}

// ---------------------------------------------------------------------------
// Where each part stands in a run
// ---------------------------------------------------------------------------
/// Input `k` of a run stands at byte `22 * k` of the run's bytes.
pub proof fn lemma_inputs_bytes_chunk(inputs: Seq<LazyBlockTransactionInput>, k: int)
    requires
        0 <= k < inputs.len(),
    ensures
        inputs_bytes(inputs).len() == 22 * inputs.len(),
        inputs_bytes(inputs).subrange(22 * k, 22 * k + 22) == input_bytes(inputs[k]),
    decreases inputs.len(),
{
    let init = inputs.drop_last();
    lemma_inputs_bytes_len(inputs);
    lemma_inputs_bytes_len(init);
    lemma_input_bytes_len(inputs.last());
    if k == inputs.len() - 1 {
        assert(inputs_bytes(inputs).subrange(22 * k, 22 * k + 22) =~= input_bytes(inputs[k]));
    } else {
        lemma_inputs_bytes_chunk(init, k);
        assert(init[k] == inputs[k]);
        assert(inputs_bytes(inputs).subrange(22 * k, 22 * k + 22) =~= inputs_bytes(init).subrange(
            22 * k,
            22 * k + 22,
        ));
    }
}

/// Output `k` of a run stands at byte `8 * k` of the run's bytes.
pub proof fn lemma_outputs_bytes_chunk(outputs: Seq<u64>, k: int)
    requires
        0 <= k < outputs.len(),
    ensures
        outputs_bytes(outputs).len() == 8 * outputs.len(),
        outputs_bytes(outputs).subrange(8 * k, 8 * k + 8) == spec_u64_be(outputs[k]),
    decreases outputs.len(),
{
    let init = outputs.drop_last();
    lemma_outputs_bytes_len(outputs);
    lemma_outputs_bytes_len(init);
    if k == outputs.len() - 1 {
        assert(outputs_bytes(outputs).subrange(8 * k, 8 * k + 8) =~= spec_u64_be(outputs[k]));
    } else {
        lemma_outputs_bytes_chunk(init, k);
        assert(init[k] == outputs[k]);
        assert(outputs_bytes(outputs).subrange(8 * k, 8 * k + 8) =~= outputs_bytes(init).subrange(
            8 * k,
            8 * k + 8,
        ));
    }
}

/// Entry `i` of the directory stands at byte `4 * i` of the directory.
pub proof fn lemma_directory_bytes_chunk(txs: Seq<TransactionView>, i: int)
    requires
        0 <= i < txs.len(),
    ensures
        directory_bytes(txs).len() == 4 * txs.len(),
        directory_bytes(txs).subrange(4 * i, 4 * i + 4) == directory_entry(txs[i]),
    decreases txs.len(),
{
    let init = txs.drop_last();
    lemma_directory_bytes_len(txs);
    lemma_directory_bytes_len(init);
    if i == txs.len() - 1 {
        assert(directory_bytes(txs).subrange(4 * i, 4 * i + 4) =~= directory_entry(txs[i]));
    } else {
        lemma_directory_bytes_chunk(init, i);
        assert(init[i] == txs[i]);
        assert(directory_bytes(txs).subrange(4 * i, 4 * i + 4) =~= directory_bytes(init).subrange(
            4 * i,
            4 * i + 4,
        ));
    }
}

/// Transaction `i` of a run stands behind the bytes of the `i` before it.
pub proof fn lemma_transactions_bytes_chunk(txs: Seq<TransactionView>, i: int)
    requires
        0 <= i < txs.len(),
    ensures
        0 <= packed_offset(txs, i),
        packed_offset(txs, i + 1) == packed_offset(txs, i) + transaction_bytes(txs[i]).len(),
        packed_offset(txs, i + 1) <= transactions_bytes(txs).len(),
        packed_offset(txs, txs.len() as int) == transactions_bytes(txs).len(),
        transactions_bytes(txs).subrange(packed_offset(txs, i), packed_offset(txs, i + 1))
            == transaction_bytes(txs[i]),
    decreases txs.len(),
{
    let init = txs.drop_last();
    assert(txs.take(txs.len() as int) =~= txs);
    if i == txs.len() - 1 {
        assert(txs.take(i) =~= init);
        assert(transactions_bytes(txs).subrange(packed_offset(txs, i), packed_offset(txs, i + 1))
            =~= transaction_bytes(txs[i]));
    } else {
        lemma_transactions_bytes_chunk(init, i);
        assert(init.take(i) =~= txs.take(i));
        assert(init.take(i + 1) =~= txs.take(i + 1));
        assert(init[i] == txs[i]);
        assert(transactions_bytes(txs).subrange(packed_offset(txs, i), packed_offset(txs, i + 1))
            =~= transactions_bytes(init).subrange(packed_offset(init, i), packed_offset(init, i + 1)));
    }
}

// ---------------------------------------------------------------------------
// Reading a part back
// ---------------------------------------------------------------------------
/// Where the bytes of an input stand at `pos`, the input is read there.
pub proof fn lemma_decode_input(bytes: Seq<u8>, pos: int, input: LazyBlockTransactionInput)
    requires
        0 <= pos,
        pos + 22 <= bytes.len(),
        bytes.subrange(pos, pos + 22) == input_bytes(input),
    ensures
        spec_input_at(bytes, pos) == input,
{
    let chunk = bytes.subrange(pos, pos + 22);
    lemma_u32_be_round_trip(input.block_height);
    lemma_u16_be_round_trip(input.vout);
    lemma_u64_be_round_trip(input.txin_value);
    assert forall|j: int| 0 <= j < 22 implies bytes[pos + j] == input_bytes(input)[j] by {
        assert(chunk[j] == bytes[pos + j]);
    }
    assert forall|j: int| 0 <= j < 8 implies spec_txid_at(bytes, pos)[j] == input.txin[j] by {
        assert(input_bytes(input)[j] == input.txin@[j]);
        assert(bytes[pos + j] == input_bytes(input)[j]);
    }
    assert(spec_txid_at(bytes, pos) =~= input.txin);
    assert(bytes.subrange(pos + 8, pos + 12) =~= spec_u32_be(input.block_height)) by {
        assert forall|j: int| 0 <= j < 4 implies bytes.subrange(pos + 8, pos + 12)[j]
            == spec_u32_be(input.block_height)[j] by {
            assert(bytes[pos + 8 + j] == input_bytes(input)[8 + j]);
        }
    }
    assert(bytes.subrange(pos + 12, pos + 14) =~= spec_u16_be(input.vout)) by {
        assert forall|j: int| 0 <= j < 2 implies bytes.subrange(pos + 12, pos + 14)[j]
            == spec_u16_be(input.vout)[j] by {
            assert(bytes[pos + 12 + j] == input_bytes(input)[12 + j]);
        }
    }
    assert(bytes.subrange(pos + 14, pos + 22) =~= spec_u64_be(input.txin_value)) by {
        assert forall|j: int| 0 <= j < 8 implies bytes.subrange(pos + 14, pos + 22)[j]
            == spec_u64_be(input.txin_value)[j] by {
            assert(bytes[pos + 14 + j] == input_bytes(input)[14 + j]);
        }
    }
}

/// Where the bytes of a run of inputs stand at `pos`, the run is read there.
pub proof fn lemma_decode_inputs(
    bytes: Seq<u8>,
    pos: int,
    inputs: Seq<LazyBlockTransactionInput>,
)
    requires
        0 <= pos,
        pos + 22 * inputs.len() <= bytes.len(),
        bytes.subrange(pos, pos + 22 * inputs.len()) == inputs_bytes(inputs),
    ensures
        spec_inputs_at(bytes, pos, inputs.len() as int) == inputs,
{
    assert forall|k: int| 0 <= k < inputs.len() implies spec_input_at(bytes, pos + k * 22)
        == inputs[k] by {
        lemma_inputs_bytes_chunk(inputs, k);
        assert(bytes.subrange(pos + k * 22, pos + k * 22 + 22) =~= bytes.subrange(
            pos,
            pos + 22 * inputs.len(),
        ).subrange(22 * k, 22 * k + 22));
        lemma_decode_input(bytes, pos + k * 22, inputs[k]);
    }
    assert(spec_inputs_at(bytes, pos, inputs.len() as int) =~= inputs);
}

/// Where the bytes of a run of outputs stand at `pos`, the run is read there.
pub proof fn lemma_decode_outputs(bytes: Seq<u8>, pos: int, outputs: Seq<u64>)
    requires
        0 <= pos,
        pos + 8 * outputs.len() <= bytes.len(),
        bytes.subrange(pos, pos + 8 * outputs.len()) == outputs_bytes(outputs),
    ensures
        spec_outputs_at(bytes, pos, outputs.len() as int) == outputs,
{
    assert forall|k: int| 0 <= k < outputs.len() implies spec_u64_at(bytes, pos + k * 8)
        == outputs[k] by {
        lemma_outputs_bytes_chunk(outputs, k);
        assert(bytes.subrange(pos + k * 8, pos + k * 8 + 8) =~= bytes.subrange(
            pos,
            pos + 8 * outputs.len(),
        ).subrange(8 * k, 8 * k + 8));
        lemma_u64_be_round_trip(outputs[k]);
    }
    assert(spec_outputs_at(bytes, pos, outputs.len() as int) =~= outputs);
}

/// Where the bytes of a transaction stand at `pos`, the transaction is read
/// there.
pub proof fn lemma_decode_transaction(bytes: Seq<u8>, pos: int, tx: TransactionView)
    requires
        0 <= pos,
        pos + transaction_bytes(tx).len() <= bytes.len(),
        bytes.subrange(pos, pos + transaction_bytes(tx).len()) == transaction_bytes(tx),
    ensures
        spec_transaction_at(bytes, pos, tx.inputs.len() as int, tx.outputs.len() as int) == tx,
{
    let n_in = tx.inputs.len() as int;
    let n_out = tx.outputs.len() as int;
    let chunk = bytes.subrange(pos, pos + transaction_bytes(tx).len());
    lemma_transaction_bytes_len(tx);
    lemma_inputs_bytes_len(tx.inputs);
    lemma_outputs_bytes_len(tx.outputs);
    assert forall|j: int| 0 <= j < 8 implies spec_txid_at(bytes, pos)[j] == tx.txid[j] by {
        assert(chunk[j] == bytes[pos + j]);
        assert(transaction_bytes(tx)[j] == tx.txid@[j]);
    }
    assert(spec_txid_at(bytes, pos) =~= tx.txid);
    assert(bytes.subrange(pos + 8, pos + 8 + 22 * n_in) =~= inputs_bytes(tx.inputs)) by {
        assert(bytes.subrange(pos + 8, pos + 8 + 22 * n_in) =~= chunk.subrange(8, 8 + 22 * n_in));
        assert(transaction_bytes(tx).subrange(8, 8 + 22 * n_in) =~= inputs_bytes(tx.inputs));
    }
    lemma_decode_inputs(bytes, pos + 8, tx.inputs);
    assert(bytes.subrange(pos + 8 + 22 * n_in, pos + 8 + 22 * n_in + 8 * n_out) =~= outputs_bytes(
        tx.outputs,
    )) by {
        assert(bytes.subrange(pos + 8 + 22 * n_in, pos + 8 + 22 * n_in + 8 * n_out)
            =~= chunk.subrange(8 + 22 * n_in, 8 + 22 * n_in + 8 * n_out));
        assert(transaction_bytes(tx).subrange(8 + 22 * n_in, 8 + 22 * n_in + 8 * n_out)
            =~= outputs_bytes(tx.outputs));
    }
    lemma_decode_outputs(bytes, pos + 8 + 22 * n_in, tx.outputs);
}

// ---------------------------------------------------------------------------
// The whole block
// ---------------------------------------------------------------------------
/// In the packed bytes of a block, the count and the directory say what the
/// block holds.
pub proof fn lemma_packed_directory(block: BlockView, i: int)
    requires
        encodable(block),
        0 <= i < block.transactions.len(),
    ensures
        spec_tx_count(packed_bytes(block)) == block.transactions.len(),
        spec_inputs_len(packed_bytes(block), i) == block.transactions[i].inputs.len(),
        spec_outputs_len(packed_bytes(block), i) == block.transactions[i].outputs.len(),
        spec_tx_size(packed_bytes(block), i) == transaction_bytes(block.transactions[i]).len(),
{
    let bytes = packed_bytes(block);
    let txs = block.transactions;
    let tx = txs[i];
    lemma_packed_count(block);
    lemma_directory_bytes_chunk(txs, i);
    lemma_transaction_bytes_len(tx);
    lemma_u16_be_round_trip(tx.inputs.len() as u16);
    lemma_u16_be_round_trip(tx.outputs.len() as u16);
    assert(bytes.subrange(2 + 4 * i, 2 + 4 * i + 4) =~= directory_bytes(txs).subrange(
        4 * i,
        4 * i + 4,
    ));
    assert(bytes.subrange(2 + 4 * i, 4 + 4 * i) =~= spec_u16_be(tx.inputs.len() as u16)) by {
        assert(bytes.subrange(2 + 4 * i, 4 + 4 * i) =~= bytes.subrange(
            2 + 4 * i,
            2 + 4 * i + 4,
        ).subrange(0, 2));
        assert(directory_entry(tx).subrange(0, 2) =~= spec_u16_be(tx.inputs.len() as u16));
    }
    assert(bytes.subrange(4 + 4 * i, 6 + 4 * i) =~= spec_u16_be(tx.outputs.len() as u16)) by {
        assert(bytes.subrange(4 + 4 * i, 6 + 4 * i) =~= bytes.subrange(
            2 + 4 * i,
            2 + 4 * i + 4,
        ).subrange(2, 4));
        assert(directory_entry(tx).subrange(2, 4) =~= spec_u16_be(tx.outputs.len() as u16));
    }
}

/// The packed bytes of a block begin with the number of its transactions.
pub proof fn lemma_packed_count(block: BlockView)
    requires
        encodable(block),
    ensures
        spec_tx_count(packed_bytes(block)) == block.transactions.len(),
        packed_bytes(block).len() == 2 + 4 * block.transactions.len() + 16 + transactions_bytes(
            block.transactions,
        ).len(),
{
    let bytes = packed_bytes(block);
    lemma_directory_bytes_len(block.transactions);
    lemma_u16_be_round_trip(block.transactions.len() as u16);
    assert(bytes.subrange(0, 2) =~= spec_u16_be(block.transactions.len() as u16));
}

/// In the packed bytes of a block, the directory gives each transaction the
/// offset at which its bytes stand.
pub proof fn lemma_packed_offsets(block: BlockView, i: int)
    requires
        encodable(block),
        0 <= i <= block.transactions.len(),
    ensures
        spec_tx_offset(packed_bytes(block), i) == packed_offset(block.transactions, i),
    decreases i,
{
    let txs = block.transactions;
    if i > 0 {
        lemma_packed_offsets(block, i - 1);
        lemma_packed_directory(block, i - 1);
        lemma_transactions_bytes_chunk(txs, i - 1);
    } else {
        assert(txs.take(0) =~= Seq::<TransactionView>::empty());
    }
}

/// In the packed bytes of a block, every transaction is read back as it was.
pub proof fn lemma_packed_transaction(block: BlockView, i: int)
    requires
        encodable(block),
        0 <= i < block.transactions.len(),
    ensures
        spec_transaction(packed_bytes(block), i) == block.transactions[i],
{
    let bytes = packed_bytes(block);
    let txs = block.transactions;
    let tx = txs[i];
    let start = 2 + 4 * txs.len() + 16;
    lemma_packed_count(block);
    lemma_packed_directory(block, i);
    lemma_packed_offsets(block, i);
    lemma_transactions_bytes_chunk(txs, i);
    let pos = start + packed_offset(txs, i);
    assert(spec_transactions_pos(bytes) == start);
    assert(bytes.subrange(pos, pos + transaction_bytes(tx).len()) =~= transactions_bytes(
        txs,
    ).subrange(packed_offset(txs, i), packed_offset(txs, i + 1)));
    lemma_decode_transaction(bytes, pos, tx);
}

/// **Round trip.** The packed bytes of a block whose counts fit the layout
/// are well formed, and the block that they stand for is that block.
pub proof fn lemma_round_trip(block: BlockView)
    requires
        encodable(block),
    ensures
        well_formed(packed_bytes(block)),
        decoded_block(packed_bytes(block)) == block,
{
    let bytes = packed_bytes(block);
    let txs = block.transactions;
    let n = txs.len() as int;
    lemma_packed_count(block);
    lemma_packed_offsets(block, n);
    assert(txs.take(n) =~= txs);
    lemma_u64_be_round_trip(block.coinbase_sats);
    let cpos = 2 + 4 * n;
    assert(spec_coinbase_pos(bytes) == cpos);
    assert forall|j: int| 0 <= j < 8 implies spec_txid_at(bytes, cpos)[j]
        == block.coinbase_txid[j] by {
        assert(bytes[cpos + j] == block.coinbase_txid@[j]);
    }
    assert(spec_txid_at(bytes, cpos) =~= block.coinbase_txid);
    assert(bytes.subrange(cpos + 8, cpos + 16) =~= spec_u64_be(block.coinbase_sats));
    assert forall|i: int| 0 <= i < n implies spec_transaction(bytes, i) == txs[i] by {
        lemma_packed_transaction(block, i);
    }
    assert(decoded_block(bytes).transactions =~= txs);
}

} // verus!
