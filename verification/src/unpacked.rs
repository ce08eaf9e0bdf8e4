//! Reading a packed block and packing what was read gives the bytes.
//!
//! Together with [`crate::round_trip`] this makes the layout exact: every
//! block whose counts fit has one packed form, and every well-formed byte
//! sequence is the packed form of one block.

use vstd::prelude::*;
use crate::bytes::{
    lemma_u16_from_be_round_trip, lemma_u32_from_be_round_trip, lemma_u64_from_be_round_trip,
    spec_u16_at, spec_u16_be, spec_u32_be, spec_u64_at, spec_u64_be,
};
use crate::layout::{
    decoded_block, directory_bytes, directory_entry, encodable, input_bytes, inputs_bytes,
    lemma_tx_offset_monotonic, outputs_bytes, packed_bytes, spec_coinbase_pos, spec_input_at,
    spec_inputs_at, spec_inputs_len, spec_outputs_at, spec_outputs_len, spec_transaction,
    spec_transactions_pos, spec_tx_count, spec_tx_offset, spec_tx_size, spec_txid_at,
    transaction_bytes, transactions_bytes, well_formed, TransactionView,
};

verus! {

/// The identifier prefix that is read at `pos` is the eight bytes there.
pub proof fn lemma_txid_at(bytes: Seq<u8>, pos: int)
    requires
        0 <= pos,
        pos + 8 <= bytes.len(),
    ensures
        spec_txid_at(bytes, pos)@ == bytes.subrange(pos, pos + 8),
{
    assert(spec_txid_at(bytes, pos)@ =~= bytes.subrange(pos, pos + 8));
}

/// The bytes of the input that is read at `pos` are the twenty-two bytes
/// there.
pub proof fn lemma_input_at(bytes: Seq<u8>, pos: int)
    requires
        0 <= pos,
        pos + 22 <= bytes.len(),
    ensures
        input_bytes(spec_input_at(bytes, pos)) == bytes.subrange(pos, pos + 22),
{
    let input = spec_input_at(bytes, pos);
    lemma_txid_at(bytes, pos);
    lemma_u32_from_be_round_trip(bytes.subrange(pos + 8, pos + 12));
    lemma_u16_from_be_round_trip(bytes.subrange(pos + 12, pos + 14));
    lemma_u64_from_be_round_trip(bytes.subrange(pos + 14, pos + 22));
    assert(spec_u32_be(input.block_height) == bytes.subrange(pos + 8, pos + 12));
    assert(spec_u16_be(input.vout) == bytes.subrange(pos + 12, pos + 14));
    assert(spec_u64_be(input.txin_value) == bytes.subrange(pos + 14, pos + 22));
    assert(input_bytes(input) =~= bytes.subrange(pos, pos + 8) + bytes.subrange(pos + 8, pos + 12)
        + bytes.subrange(pos + 12, pos + 14) + bytes.subrange(pos + 14, pos + 22));
    assert(input_bytes(input) =~= bytes.subrange(pos, pos + 22));
}

/// The bytes of the inputs that are read from `pos` on are the bytes
/// there.
pub proof fn lemma_inputs_at(bytes: Seq<u8>, pos: int, count: int)
    requires
        0 <= pos,
        0 <= count,
        pos + 22 * count <= bytes.len(),
    ensures
        inputs_bytes(spec_inputs_at(bytes, pos, count)) == bytes.subrange(pos, pos + 22 * count),
    decreases count,
{
    let inputs = spec_inputs_at(bytes, pos, count);
    if count == 0 {
        assert(inputs_bytes(inputs) =~= bytes.subrange(pos, pos));
    } else {
        lemma_inputs_at(bytes, pos, count - 1);
        assert(inputs.drop_last() =~= spec_inputs_at(bytes, pos, count - 1));
        assert(inputs.last() == spec_input_at(bytes, pos + (count - 1) * 22));
        lemma_input_at(bytes, pos + (count - 1) * 22);
        assert(inputs_bytes(inputs) =~= bytes.subrange(pos, pos + 22 * count));
    }
}

/// The bytes of the outputs that are read from `pos` on are the bytes
/// there.
pub proof fn lemma_outputs_at(bytes: Seq<u8>, pos: int, count: int)
    requires
        0 <= pos,
        0 <= count,
        pos + 8 * count <= bytes.len(),
    ensures
        outputs_bytes(spec_outputs_at(bytes, pos, count)) == bytes.subrange(pos, pos + 8 * count),
    decreases count,
{
    let outputs = spec_outputs_at(bytes, pos, count);
    if count == 0 {
        assert(outputs_bytes(outputs) =~= bytes.subrange(pos, pos));
    } else {
        lemma_outputs_at(bytes, pos, count - 1);
        assert(outputs.drop_last() =~= spec_outputs_at(bytes, pos, count - 1));
        assert(outputs.last() == spec_u64_at(bytes, pos + (count - 1) * 8));
        lemma_u64_from_be_round_trip(
            bytes.subrange(pos + (count - 1) * 8, pos + (count - 1) * 8 + 8),
        );
        assert(outputs_bytes(outputs) =~= bytes.subrange(pos, pos + 8 * count));
    }
}

/// The bytes of transaction `index` of a packed block are the bytes at
/// its place, and its directory entry is the entry at its place.
pub proof fn lemma_unpacked_transaction(bytes: Seq<u8>, index: int)
    requires
        well_formed(bytes),
        0 <= index < spec_tx_count(bytes),
    ensures
        0 <= spec_tx_offset(bytes, index),
        spec_transactions_pos(bytes) + spec_tx_offset(bytes, index + 1) <= bytes.len(),
        transaction_bytes(spec_transaction(bytes, index)) == bytes.subrange(
            spec_transactions_pos(bytes) + spec_tx_offset(bytes, index),
            spec_transactions_pos(bytes) + spec_tx_offset(bytes, index + 1),
        ),
        directory_entry(spec_transaction(bytes, index)) == bytes.subrange(
            2 + 4 * index,
            6 + 4 * index,
        ),
        spec_transaction(bytes, index).inputs.len() <= u16::MAX,
        spec_transaction(bytes, index).outputs.len() <= u16::MAX,
{
    let tx = spec_transaction(bytes, index);
    let n_in = spec_inputs_len(bytes, index);
    let n_out = spec_outputs_len(bytes, index);
    let pos = spec_transactions_pos(bytes) + spec_tx_offset(bytes, index);
    lemma_tx_offset_monotonic(bytes, index, spec_tx_count(bytes));
    lemma_tx_offset_monotonic(bytes, index + 1, spec_tx_count(bytes));
    assert(spec_tx_offset(bytes, index + 1) == spec_tx_offset(bytes, index) + spec_tx_size(
        bytes,
        index,
    ));
    lemma_txid_at(bytes, pos);
    lemma_inputs_at(bytes, pos + 8, n_in);
    lemma_outputs_at(bytes, pos + 8 + 22 * n_in, n_out);
    assert(transaction_bytes(tx) =~= bytes.subrange(pos, pos + 8 + 22 * n_in + 8 * n_out));
    lemma_u16_from_be_round_trip(bytes.subrange(2 + 4 * index, 4 + 4 * index));
    lemma_u16_from_be_round_trip(bytes.subrange(4 + 4 * index, 6 + 4 * index));
    assert(tx.inputs.len() == n_in);
    assert(tx.outputs.len() == n_out);
    assert(n_in == spec_u16_at(bytes, 2 + 4 * index));
    assert(n_out == spec_u16_at(bytes, 4 + 4 * index));
    assert(directory_entry(tx) =~= bytes.subrange(2 + 4 * index, 4 + 4 * index) + bytes.subrange(
        4 + 4 * index,
        6 + 4 * index,
    ));
    assert(directory_entry(tx) =~= bytes.subrange(2 + 4 * index, 6 + 4 * index));
}

/// The first `count` transactions of a packed block, as they are read.
pub open spec fn spec_transactions(bytes: Seq<u8>, count: int) -> Seq<TransactionView> {
    Seq::new(count as nat, |index: int| spec_transaction(bytes, index))
}

/// The bytes and the directory of the first `count` transactions of a
/// packed block are the bytes at their places.
pub proof fn lemma_unpacked_transactions(bytes: Seq<u8>, count: int)
    requires
        well_formed(bytes),
        0 <= count <= spec_tx_count(bytes),
    ensures
        0 <= spec_tx_offset(bytes, count),
        spec_transactions_pos(bytes) + spec_tx_offset(bytes, count) <= bytes.len(),
        transactions_bytes(spec_transactions(bytes, count)) == bytes.subrange(
            spec_transactions_pos(bytes),
            spec_transactions_pos(bytes) + spec_tx_offset(bytes, count),
        ),
        directory_bytes(spec_transactions(bytes, count)) == bytes.subrange(2, 2 + 4 * count),
    decreases count,
{
    let txs = spec_transactions(bytes, count);
    let start = spec_transactions_pos(bytes);
    lemma_tx_offset_monotonic(bytes, count, spec_tx_count(bytes));
    if count == 0 {
        assert(transactions_bytes(txs) =~= bytes.subrange(start, start));
        assert(directory_bytes(txs) =~= bytes.subrange(2, 2));
    } else {
        let before = spec_transactions(bytes, count - 1);
        let last = spec_transaction(bytes, count - 1);
        let middle = start + spec_tx_offset(bytes, count - 1);
        let end = start + spec_tx_offset(bytes, count);
        lemma_unpacked_transactions(bytes, count - 1);
        lemma_unpacked_transaction(bytes, count - 1);
        assert(txs.drop_last() =~= before);
        assert(txs.last() == last);
        assert(transactions_bytes(txs) == transactions_bytes(before) + transaction_bytes(last));
        assert(directory_bytes(txs) == directory_bytes(before) + directory_entry(last));
        lemma_subrange_join(bytes, start, middle, end);
        lemma_subrange_join(bytes, 2, 2 + 4 * (count - 1), 2 + 4 * count);
    }
}

/// Two stretches of a sequence that follow each other make one stretch.
pub proof fn lemma_subrange_join(bytes: Seq<u8>, from: int, middle: int, to: int)
    requires
        0 <= from <= middle <= to <= bytes.len(),
    ensures
        bytes.subrange(from, middle) + bytes.subrange(middle, to) == bytes.subrange(from, to),
{
    assert(bytes.subrange(from, middle) + bytes.subrange(middle, to) =~= bytes.subrange(from, to));
}

/// **Round trip, the other way.** The block that well-formed bytes stand
/// for has counts that fit the layout, and its packed bytes are those
/// bytes.
pub proof fn lemma_unpacked_round_trip(bytes: Seq<u8>)
    requires
        well_formed(bytes),
    ensures
        encodable(decoded_block(bytes)),
        packed_bytes(decoded_block(bytes)) == bytes,
{
    let block = decoded_block(bytes);
    let count = spec_tx_count(bytes);
    let cpos = spec_coinbase_pos(bytes);
    lemma_unpacked_transactions(bytes, count);
    lemma_tx_offset_monotonic(bytes, 0, count);
    assert(block.transactions =~= spec_transactions(bytes, count));
    assert forall|i: int| 0 <= i < block.transactions.len() implies {
        &&& (#[trigger] block.transactions[i]).inputs.len() <= u16::MAX
        &&& block.transactions[i].outputs.len() <= u16::MAX
    } by {
        lemma_unpacked_transaction(bytes, i);
    }
    lemma_u16_from_be_round_trip(bytes.subrange(0, 2));
    assert(spec_u16_be(block.transactions.len() as u16) == bytes.subrange(0, 2));
    lemma_txid_at(bytes, cpos);
    lemma_u64_from_be_round_trip(bytes.subrange(cpos + 8, cpos + 16));
    assert(spec_u64_be(block.coinbase_sats) == bytes.subrange(cpos + 8, cpos + 16));
    assert(packed_bytes(block) =~= bytes.subrange(0, 2) + bytes.subrange(2, cpos) + bytes.subrange(
        cpos,
        cpos + 8,
    ) + bytes.subrange(cpos + 8, cpos + 16) + bytes.subrange(cpos + 16, bytes.len() as int));
    assert(packed_bytes(block) =~= bytes);
}

} // verus!
