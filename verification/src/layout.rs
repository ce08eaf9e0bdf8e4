//! The packed layout of a block, as mathematics.
//!
//! A packed block is a byte sequence: the number of transactions that are not
//! the coinbase, a directory with the number of inputs and of outputs of each
//! of them, the coinbase's identifier prefix and value, and then the
//! transactions themselves. This module says which bytes stand for a block
//! ([`packed_bytes`]), and which block some bytes stand for ([`decoded_block`],
//! where they are [`well_formed`]).

use vstd::prelude::*;
use crate::bytes::{
    spec_u16_at, spec_u16_be, spec_u32_at, spec_u32_be, spec_u64_at, spec_u64_be,
};
use crate::block::LazyBlockTransactionInput;

verus! {

/// Bytes kept of a transaction identifier.
pub const TXID_LEN: usize = 8;

/// Bytes of an amount.
pub const SATS_LEN: usize = 8;

/// Bytes of one input: identifier prefix, block height, output index, amount.
pub const INPUT_SIZE: usize = 22;

/// Bytes of one output: its amount.
pub const OUTPUT_SIZE: usize = 8;

/// A transaction that is not the coinbase, as the index keeps it.
pub struct TransactionView {
    pub txid: [u8; 8],
    pub inputs: Seq<LazyBlockTransactionInput>,
    pub outputs: Seq<u64>,
}

/// A block, as the index keeps it.
pub struct BlockView {
    pub coinbase_txid: [u8; 8],
    pub coinbase_sats: u64,
    pub transactions: Seq<TransactionView>,
}

/// Whether the counts of `block` fit the two-byte fields of the layout.
pub open spec fn encodable(block: BlockView) -> bool {
    &&& block.transactions.len() <= u16::MAX
    &&& forall|i: int|
        0 <= i < block.transactions.len() ==> {
            &&& (#[trigger] block.transactions[i]).inputs.len() <= u16::MAX
            &&& block.transactions[i].outputs.len() <= u16::MAX
        }
}

// ---------------------------------------------------------------------------
// From a block to its bytes
// ---------------------------------------------------------------------------
/// The bytes of one input.
pub open spec fn input_bytes(input: LazyBlockTransactionInput) -> Seq<u8> {
    input.txin@ + spec_u32_be(input.block_height) + spec_u16_be(input.vout) + spec_u64_be(
        input.txin_value,
    )
}

/// The bytes of some inputs, one after the other.
pub open spec fn inputs_bytes(inputs: Seq<LazyBlockTransactionInput>) -> Seq<u8>
    decreases inputs.len(),
{
    if inputs.len() == 0 {
        Seq::empty()
    } else {
        inputs_bytes(inputs.drop_last()) + input_bytes(inputs.last())
    }
}

/// The bytes of some output amounts, one after the other.
pub open spec fn outputs_bytes(outputs: Seq<u64>) -> Seq<u8>
    decreases outputs.len(),
{
    if outputs.len() == 0 {
        Seq::empty()
    } else {
        outputs_bytes(outputs.drop_last()) + spec_u64_be(outputs.last())
    }
}

/// The bytes of one transaction: identifier prefix, inputs, outputs.
pub open spec fn transaction_bytes(tx: TransactionView) -> Seq<u8> {
    tx.txid@ + inputs_bytes(tx.inputs) + outputs_bytes(tx.outputs)
}

/// The bytes of some transactions, one after the other.
pub open spec fn transactions_bytes(txs: Seq<TransactionView>) -> Seq<u8>
    decreases txs.len(),
{
    if txs.len() == 0 {
        Seq::empty()
    } else {
        transactions_bytes(txs.drop_last()) + transaction_bytes(txs.last())
    }
}

/// The directory entry of one transaction: how many inputs, how many outputs.
pub open spec fn directory_entry(tx: TransactionView) -> Seq<u8> {
    spec_u16_be(tx.inputs.len() as u16) + spec_u16_be(tx.outputs.len() as u16)
}

/// The directory of some transactions.
pub open spec fn directory_bytes(txs: Seq<TransactionView>) -> Seq<u8>
    decreases txs.len(),
{
    if txs.len() == 0 {
        Seq::empty()
    } else {
        directory_bytes(txs.drop_last()) + directory_entry(txs.last())
    }
}

/// The packed bytes of a block.
pub open spec fn packed_bytes(block: BlockView) -> Seq<u8> {
    spec_u16_be(block.transactions.len() as u16) + directory_bytes(block.transactions)
        + block.coinbase_txid@ + spec_u64_be(block.coinbase_sats) + transactions_bytes(
        block.transactions,
    )
}

// ---------------------------------------------------------------------------
// From bytes to the block
// ---------------------------------------------------------------------------
/// The identifier prefix that `bytes` holds at `pos`.
pub open spec fn spec_txid_at(bytes: Seq<u8>, pos: int) -> [u8; 8] {
    [
        bytes[pos],
        bytes[pos + 1],
        bytes[pos + 2],
        bytes[pos + 3],
        bytes[pos + 4],
        bytes[pos + 5],
        bytes[pos + 6],
        bytes[pos + 7],
    ]
}

/// The number of transactions that the first two bytes announce.
pub open spec fn spec_tx_count(bytes: Seq<u8>) -> int {
    spec_u16_at(bytes, 0) as int
}

/// The number of inputs that the directory gives for transaction `index`.
pub open spec fn spec_inputs_len(bytes: Seq<u8>, index: int) -> int {
    spec_u16_at(bytes, 2 + 4 * index) as int
}

/// The number of outputs that the directory gives for transaction `index`.
pub open spec fn spec_outputs_len(bytes: Seq<u8>, index: int) -> int {
    spec_u16_at(bytes, 4 + 4 * index) as int
}

/// The number of bytes that transaction `index` takes, by the directory.
pub open spec fn spec_tx_size(bytes: Seq<u8>, index: int) -> int {
    TXID_LEN + spec_inputs_len(bytes, index) * INPUT_SIZE + spec_outputs_len(bytes, index)
        * OUTPUT_SIZE
}

/// The number of bytes that the transactions before `index` take together.
pub open spec fn spec_tx_offset(bytes: Seq<u8>, index: int) -> int
    decreases index,
{
    if index <= 0 {
        0
    } else {
        spec_tx_offset(bytes, index - 1) + spec_tx_size(bytes, index - 1)
    }
}

/// Where the coinbase's identifier prefix stands: behind the directory.
pub open spec fn spec_coinbase_pos(bytes: Seq<u8>) -> int {
    2 + 4 * spec_tx_count(bytes)
}

/// Where the first transaction stands: behind the coinbase's prefix and value.
pub open spec fn spec_transactions_pos(bytes: Seq<u8>) -> int {
    spec_coinbase_pos(bytes) + TXID_LEN + SATS_LEN
}

/// Whether `bytes` are a packed block: they hold the count, the directory, the
/// coinbase, and exactly the transactions that the directory announces.
pub open spec fn well_formed(bytes: Seq<u8>) -> bool {
    &&& bytes.len() >= 2
    &&& bytes.len() == spec_transactions_pos(bytes) + spec_tx_offset(bytes, spec_tx_count(bytes))
}

/// The input that `bytes` holds at `pos`.
pub open spec fn spec_input_at(bytes: Seq<u8>, pos: int) -> LazyBlockTransactionInput {
    LazyBlockTransactionInput {
        txin: spec_txid_at(bytes, pos),
        block_height: spec_u32_at(bytes, pos + 8),
        vout: spec_u16_at(bytes, pos + 12),
        txin_value: spec_u64_at(bytes, pos + 14),
    }
}

/// The `count` inputs that `bytes` holds from `pos` on.
pub open spec fn spec_inputs_at(bytes: Seq<u8>, pos: int, count: int) -> Seq<
    LazyBlockTransactionInput,
> {
    Seq::new(count as nat, |k: int| spec_input_at(bytes, pos + k * INPUT_SIZE))
}

/// The `count` output amounts that `bytes` holds from `pos` on.
pub open spec fn spec_outputs_at(bytes: Seq<u8>, pos: int, count: int) -> Seq<u64> {
    Seq::new(count as nat, |k: int| spec_u64_at(bytes, pos + k * OUTPUT_SIZE))
}

/// The transaction whose identifier prefix stands at `pos`, with the given
/// numbers of inputs and outputs.
pub open spec fn spec_transaction_at(
    bytes: Seq<u8>,
    pos: int,
    inputs_len: int,
    outputs_len: int,
) -> TransactionView {
    TransactionView {
        txid: spec_txid_at(bytes, pos),
        inputs: spec_inputs_at(bytes, pos + TXID_LEN, inputs_len),
        outputs: spec_outputs_at(bytes, pos + TXID_LEN + inputs_len * INPUT_SIZE, outputs_len),
    }
}

/// Transaction `index` of the block that `bytes` stand for.
pub open spec fn spec_transaction(bytes: Seq<u8>, index: int) -> TransactionView {
    spec_transaction_at(
        bytes,
        spec_transactions_pos(bytes) + spec_tx_offset(bytes, index),
        spec_inputs_len(bytes, index),
        spec_outputs_len(bytes, index),
    )
}

/// The block that `bytes` stand for.
pub open spec fn decoded_block(bytes: Seq<u8>) -> BlockView {
    BlockView {
        coinbase_txid: spec_txid_at(bytes, spec_coinbase_pos(bytes)),
        coinbase_sats: spec_u64_at(bytes, spec_coinbase_pos(bytes) + TXID_LEN),
        transactions: Seq::new(
            spec_tx_count(bytes) as nat,
            |index: int| spec_transaction(bytes, index),
        ),
    }
}

/// The first of `txs` whose identifier prefix is `txid`, if there is one.
pub open spec fn spec_find_transaction(txs: Seq<TransactionView>, txid: Seq<u8>) -> Option<
    TransactionView,
>
    decreases txs.len(),
{
    if txs.len() == 0 {
        None
    } else if txs[0].txid@ == txid {
        Some(txs[0])
    } else {
        spec_find_transaction(txs.drop_first(), txid)
    }
}

/// **The lazy view and the eager decode agree.** Looking for the identifier
/// prefix of transaction `index` finds that transaction, as long as no
/// transaction before it has the same prefix.
pub proof fn lemma_find_transaction_at(txs: Seq<TransactionView>, index: int)
    requires
        0 <= index < txs.len(),
        forall|j: int| 0 <= j < index ==> (#[trigger] txs[j]).txid@ != txs[index].txid@,
    ensures
        spec_find_transaction(txs, txs[index].txid@) == Some(txs[index]),
    decreases index,
{
    if index > 0 {
        let rest = txs.drop_first();
        assert(txs[0].txid@ != txs[index].txid@);
        assert(rest[index - 1] == txs[index]);
        assert forall|j: int| 0 <= j < index - 1 implies (#[trigger] rest[j]).txid@ != rest[index
            - 1].txid@ by {
            assert(rest[j] == txs[j + 1]);
        }
        lemma_find_transaction_at(rest, index - 1);
    }
}

/// What is found has the identifier prefix that was looked for, and is a
/// transaction of the block.
pub proof fn lemma_find_transaction_finds(txs: Seq<TransactionView>, txid: Seq<u8>)
    ensures
        spec_find_transaction(txs, txid) matches Some(tx) ==> tx.txid@ == txid && txs.contains(tx),
        spec_find_transaction(txs, txid) is None ==> forall|i: int|
            0 <= i < txs.len() ==> (#[trigger] txs[i]).txid@ != txid,
    decreases txs.len(),
{
    if txs.len() > 0 {
        if txs[0].txid@ == txid {
            assert(txs.contains(txs[0]));
        } else {
            let rest = txs.drop_first();
            lemma_find_transaction_finds(rest, txid);
            if let Some(tx) = spec_find_transaction(rest, txid) {
                let i = choose|i: int| 0 <= i < rest.len() && rest[i] == tx;
                assert(txs[i + 1] == tx);
            } else {
                assert forall|i: int| 0 <= i < txs.len() implies (#[trigger] txs[i]).txid@
                    != txid by {
                    if i > 0 {
                        assert(rest[i - 1] == txs[i]);
                    }
                }
            }
        }
    }
}

// ---------------------------------------------------------------------------
// Facts on offsets
// ---------------------------------------------------------------------------
/// Every transaction takes at least its identifier prefix.
pub proof fn lemma_tx_size_bounds(bytes: Seq<u8>, index: int)
    ensures
        TXID_LEN <= spec_tx_size(bytes, index) <= TXID_LEN + u16::MAX * INPUT_SIZE + u16::MAX
            * OUTPUT_SIZE,
{
}

/// Offsets grow with the index.
pub proof fn lemma_tx_offset_monotonic(bytes: Seq<u8>, i: int, j: int)
    requires
        0 <= i <= j,
    ensures
        0 <= spec_tx_offset(bytes, i) <= spec_tx_offset(bytes, j),
        i < j ==> spec_tx_offset(bytes, i) + spec_tx_size(bytes, i) <= spec_tx_offset(bytes, j),
    decreases j,
{
    if j > 0 {
        lemma_tx_size_bounds(bytes, j - 1);
        if i < j {
            lemma_tx_offset_monotonic(bytes, i, j - 1);
        } else {
            lemma_tx_offset_monotonic(bytes, 0, j - 1);
        }
    }
}

} // verus!
