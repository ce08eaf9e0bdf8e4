//! Blocks as they come in, before they are packed: every transaction with
//! its identifier in hexadecimal, and every input with the output that it
//! spends.

use vstd::prelude::*;
use crate::block::LazyBlockTransactionInput;
use crate::error::EncodeError;
use crate::hop::spec_outputs_sum;
use crate::layout::{spec_txid_at, BlockView, TransactionView};
use crate::txid::spec_hash_prefix;

verus! {

/// An input with the output that it spends resolved.
#[derive(Debug, Clone)]
pub struct StandardizedInput {
    /// Identifier of the transaction that made the spent output.
    pub txid: String,
    /// Index of the spent output in that transaction.
    pub vout: u32,
    /// Height of the block that holds that transaction.
    pub block_height: u64,
    /// Amount of the spent output.
    pub value: u64,
}

/// A transaction with its inputs resolved and the amounts of its outputs.
#[derive(Debug, Clone)]
pub struct StandardizedTransaction {
    pub txid: String,
    pub inputs: Vec<StandardizedInput>,
    pub outputs: Vec<u64>,
}

/// A block with its transactions in block order, the coinbase first.
#[derive(Debug, Clone)]
pub struct StandardizedBlock {
    pub transactions: Vec<StandardizedTransaction>,
}

/// What a node says of an output that is spent: where it was made and what
/// it held.
#[derive(Debug, Clone)]
pub struct FullPrevout {
    pub height: u64,
    pub value: u64,
}

/// An input as a node hands it out. The input of a coinbase spends nothing,
/// and has none of the three.
#[derive(Debug, Clone)]
pub struct FullInput {
    pub txid: Option<String>,
    pub vout: Option<u32>,
    pub prevout: Option<FullPrevout>,
}

/// A transaction as a node hands it out.
#[derive(Debug, Clone)]
pub struct FullTransaction {
    pub txid: String,
    pub vin: Vec<FullInput>,
    pub vout: Vec<u64>,
}

/// A block as a node hands it out, the coinbase first.
#[derive(Debug, Clone)]
pub struct FullBlock {
    pub height: u64,
    pub tx: Vec<FullTransaction>,
}

/// An input of a block that comes in.
pub struct InputRecord {
    pub txid: Seq<char>,
    pub vout: u32,
    pub block_height: u64,
    pub value: u64,
}

/// A transaction of a block that comes in.
pub struct TransactionRecord {
    pub txid: Seq<char>,
    pub inputs: Seq<InputRecord>,
    pub outputs: Seq<u64>,
}

/// A block that comes in.
pub struct BlockRecord {
    pub transactions: Seq<TransactionRecord>,
}

impl View for StandardizedInput {
    type V = InputRecord;

    open spec fn view(&self) -> InputRecord {
        InputRecord {
            txid: self.txid@,
            vout: self.vout,
            block_height: self.block_height,
            value: self.value,
        }
    }
}

impl View for StandardizedTransaction {
    type V = TransactionRecord;

    open spec fn view(&self) -> TransactionRecord {
        TransactionRecord {
            txid: self.txid@,
            inputs: self.inputs@.map_values(|input: StandardizedInput| input@),
            outputs: self.outputs@,
        }
    }
}

impl View for StandardizedBlock {
    type V = BlockRecord;

    open spec fn view(&self) -> BlockRecord {
        BlockRecord {
            transactions: self.transactions@.map_values(|tx: StandardizedTransaction| tx@),
        }
    }
}

impl FullInput {
    /// Whether the input says which output it spends, and what that output
    /// held.
    pub open spec fn is_resolved(&self) -> bool {
        self.txid is Some && self.vout is Some && self.prevout is Some
    }

    /// The input, where it is resolved.
    pub open spec fn resolved(&self) -> InputRecord {
        InputRecord {
            txid: self.txid->0@,
            vout: self.vout->0,
            block_height: self.prevout->0.height,
            value: self.prevout->0.value,
        }
    }
}

impl FullTransaction {
    /// Whether every input is resolved.
    pub open spec fn is_resolved(&self) -> bool {
        forall|k: int| 0 <= k < self.vin.len() ==> (#[trigger] self.vin[k]).is_resolved()
    }

    /// The transaction with the inputs that are given.
    pub open spec fn with_inputs(&self, inputs: Seq<InputRecord>) -> TransactionRecord {
        TransactionRecord { txid: self.txid@, inputs, outputs: self.vout@ }
    }

    /// The transaction, where every input is resolved.
    pub open spec fn resolved(&self) -> TransactionRecord {
        self.with_inputs(self.vin@.map_values(|input: FullInput| input.resolved()))
    }
}

impl FullBlock {
    /// Whether every input of every transaction but the coinbase is
    /// resolved.
    pub open spec fn is_resolved(&self) -> bool {
        forall|t: int| 1 <= t < self.tx.len() ==> (#[trigger] self.tx[t]).is_resolved()
    }

    /// The block, where it is resolved. Of the coinbase, which spends
    /// nothing, no input is kept.
    pub open spec fn resolved(&self) -> BlockRecord {
        BlockRecord {
            transactions: Seq::new(
                self.tx.len() as nat,
                |t: int|
                    if t == 0 {
                        self.tx[t].with_inputs(Seq::empty())
                    } else {
                        self.tx[t].resolved()
                    },
            ),
        }
    }
}

// ---------------------------------------------------------------------------
// What is kept of a block that comes in
// ---------------------------------------------------------------------------
/// The eight bytes `prefix` as an identifier prefix.
pub open spec fn spec_prefix_array(prefix: Seq<u8>) -> [u8; 8] {
    spec_txid_at(prefix, 0)
}

/// What is kept of an input.
pub open spec fn spec_packed_input(input: InputRecord) -> LazyBlockTransactionInput {
    LazyBlockTransactionInput {
        txin: spec_prefix_array(spec_hash_prefix(input.txid).unwrap()),
        block_height: input.block_height as u32,
        vout: input.vout as u16,
        txin_value: input.value,
    }
}

/// What is kept of a transaction.
pub open spec fn spec_packed_transaction(tx: TransactionRecord) -> TransactionView {
    TransactionView {
        txid: spec_prefix_array(spec_hash_prefix(tx.txid).unwrap()),
        inputs: tx.inputs.map_values(|input: InputRecord| spec_packed_input(input)),
        outputs: tx.outputs,
    }
}

/// What is kept of a block: of the coinbase, the identifier prefix and what
/// its outputs hold together; of every other transaction, the identifier
/// prefix, the inputs and the amounts of the outputs.
pub open spec fn spec_packed_block(block: BlockRecord) -> BlockView {
    BlockView {
        coinbase_txid: spec_prefix_array(spec_hash_prefix(block.transactions[0].txid).unwrap()),
        coinbase_sats: spec_outputs_sum(block.transactions[0].outputs) as u64,
        transactions: block.transactions.skip(1).map_values(
            |tx: TransactionRecord| spec_packed_transaction(tx),
        ),
    }
}

/// Whether the identifier that an input names is hexadecimal and long
/// enough.
pub open spec fn spec_input_txid_valid(input: InputRecord) -> bool {
    spec_hash_prefix(input.txid) is Some
}

/// Whether the identifier of a transaction is hexadecimal and long enough.
pub open spec fn spec_transaction_txid_valid(tx: TransactionRecord) -> bool {
    spec_hash_prefix(tx.txid) is Some
}

/// Whether the identifiers that the inputs of a transaction name are
/// hexadecimal and long enough.
pub open spec fn spec_inputs_txids_valid(tx: TransactionRecord) -> bool {
    forall|k: int| 0 <= k < tx.inputs.len() ==> spec_input_txid_valid(#[trigger] tx.inputs[k])
}

/// Whether every identifier that is kept of a block is hexadecimal and
/// long enough: those of the transactions, and those that the inputs name,
/// but for the coinbase, whose inputs are not kept.
pub open spec fn spec_txids_valid(block: BlockRecord) -> bool {
    &&& forall|t: int|
        0 <= t < block.transactions.len() ==> spec_transaction_txid_valid(
            #[trigger] block.transactions[t],
        )
    &&& forall|t: int|
        1 <= t < block.transactions.len() ==> spec_inputs_txids_valid(
            #[trigger] block.transactions[t],
        )
}

/// Whether the height and the output index of an input fit their fields.
pub open spec fn spec_input_fits(input: InputRecord) -> bool {
    input.block_height <= u32::MAX && input.vout <= u16::MAX
}

/// Whether the counts of a transaction and what its inputs hold fit their
/// fields.
pub open spec fn spec_transaction_fits(tx: TransactionRecord) -> bool {
    &&& tx.inputs.len() <= u16::MAX
    &&& tx.outputs.len() <= u16::MAX
    &&& forall|k: int| 0 <= k < tx.inputs.len() ==> spec_input_fits(#[trigger] tx.inputs[k])
}

/// Whether everything that is kept of a block fits its field.
pub open spec fn spec_fields_fit(block: BlockRecord) -> bool {
    &&& spec_outputs_sum(block.transactions[0].outputs) <= u64::MAX
    &&& block.transactions.len() - 1 <= u16::MAX
    &&& forall|t: int|
        1 <= t < block.transactions.len() ==> spec_transaction_fits(
            #[trigger] block.transactions[t],
        )
}

/// The identifier prefixes of a block, the coinbase's first.
pub open spec fn spec_block_txids(block: BlockView) -> Seq<Seq<u8>> {
    seq![block.coinbase_txid@] + block.transactions.map_values(|tx: TransactionView| tx.txid@)
}

/// Why a block cannot be packed, if it cannot. Where more than one thing
/// is wrong, the first of these is named: no coinbase; an identifier that is
/// not hexadecimal; a value too large for its field; two transactions with
/// one identifier prefix.
pub open spec fn spec_packing_error(block: BlockRecord) -> Option<EncodeError> {
    if block.transactions.len() == 0 {
        Some(EncodeError::MissingCoinbase)
    } else if !spec_txids_valid(block) {
        Some(EncodeError::InvalidTxid)
    } else if !spec_fields_fit(block) {
        Some(EncodeError::FieldOverflow)
    } else if !spec_block_txids(spec_packed_block(block)).no_duplicates() {
        Some(EncodeError::TxidPrefixCollision)
    } else {
        None
    }
}

/// Why a block that a node hands out cannot be packed, if it cannot: first
/// of all for want of a coinbase, then for want of a spent output, then as
/// any other block.
pub open spec fn spec_full_packing_error(block: FullBlock) -> Option<EncodeError> {
    if block.tx.len() == 0 {
        Some(EncodeError::MissingCoinbase)
    } else if !block.is_resolved() {
        Some(EncodeError::MissingPrevout)
    } else {
        spec_packing_error(block.resolved())
    }
}

} // verus!
