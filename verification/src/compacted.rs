//! The eager form of a block: every transaction decoded, as nested tuples.

use vstd::prelude::*;
use vstd::slice::slice_to_vec;
use crate::block::{LazyBlock, LazyBlockTransaction, LazyBlockTransactionInput};
use crate::bytes::{push_txid, push_u16_be, push_u32_be, push_u64_be};
use crate::error::{CorruptedBlockBytes, EncodeError};
use crate::layout::{
    decoded_block, directory_bytes, encodable, input_bytes, inputs_bytes, outputs_bytes,
    packed_bytes, transaction_bytes, transactions_bytes, well_formed, BlockView, TransactionView,
};
use crate::unpacked::lemma_unpacked_round_trip;

verus! {

/// A block with every transaction decoded: the coinbase's identifier prefix
/// and value, then each other transaction as its identifier prefix, its
/// inputs (identifier prefix, block height, output index and amount of what
/// each spends) and the amounts of its outputs.
#[derive(Debug)]
pub struct CompactedBlock(
    pub (([u8; 8], u64), Vec<([u8; 8], Vec<([u8; 8], u32, u16, u64)>, Vec<u64>)>),
);

/// The input that a tuple of the eager form stands for.
pub open spec fn compacted_input(input: ([u8; 8], u32, u16, u64)) -> LazyBlockTransactionInput {
    LazyBlockTransactionInput {
        txin: input.0,
        block_height: input.1,
        vout: input.2,
        txin_value: input.3,
    }
}

/// The inputs that the tuples of the eager form stand for.
pub open spec fn compacted_inputs(inputs: Seq<([u8; 8], u32, u16, u64)>) -> Seq<
    LazyBlockTransactionInput,
> {
    inputs.map_values(|input: ([u8; 8], u32, u16, u64)| compacted_input(input))
}

/// The transaction that a tuple of the eager form stands for.
pub open spec fn compacted_transaction(
    tx: ([u8; 8], Vec<([u8; 8], u32, u16, u64)>, Vec<u64>),
) -> TransactionView {
    TransactionView { txid: tx.0, inputs: compacted_inputs(tx.1@), outputs: tx.2@ }
}

/// The transactions that the tuples of the eager form stand for.
pub open spec fn compacted_transactions(
    txs: Seq<([u8; 8], Vec<([u8; 8], u32, u16, u64)>, Vec<u64>)>,
) -> Seq<TransactionView> {
    txs.map_values(
        |tx: ([u8; 8], Vec<([u8; 8], u32, u16, u64)>, Vec<u64>)| compacted_transaction(tx),
    )
}

impl View for CompactedBlock {
    type V = BlockView;

    open spec fn view(&self) -> BlockView {
        BlockView {
            coinbase_txid: self.0.0.0,
            coinbase_sats: self.0.0.1,
            transactions: compacted_transactions(self.0.1@),
        }
    }
}

/// Appends the bytes of a run of inputs.
fn write_inputs(fd: &mut Vec<u8>, inputs: &Vec<([u8; 8], u32, u16, u64)>)
    ensures
        final(fd)@ == old(fd)@ + inputs_bytes(compacted_inputs(inputs@)),
{
    let ghost run = compacted_inputs(inputs@);
    let mut k: usize = 0;
    assert(run.take(0) =~= Seq::<LazyBlockTransactionInput>::empty());
    assert(fd@ =~= old(fd)@ + inputs_bytes(run.take(0)));
    while k < inputs.len()
        invariant
            k <= inputs.len(),
            run == compacted_inputs(inputs@),
            fd@ == old(fd)@ + inputs_bytes(run.take(k as int)),
        decreases inputs.len() - k,
    {
        let ghost before = fd@;
        let input = &inputs[k];
        push_txid(fd, &input.0);
        push_u32_be(fd, input.1);
        push_u16_be(fd, input.2);
        push_u64_be(fd, input.3);
        proof {
            assert(run.take(k + 1).drop_last() =~= run.take(k as int));
            assert(run.take(k + 1).last() == compacted_input(inputs@[k as int]));
            assert(fd@ =~= before + input_bytes(run[k as int]));
            assert(fd@ =~= old(fd)@ + inputs_bytes(run.take(k + 1)));
        }
        k = k + 1;
    }
    assert(run.take(inputs.len() as int) =~= run);
}

/// Appends the bytes of a run of output amounts.
fn write_outputs(fd: &mut Vec<u8>, outputs: &Vec<u64>)
    ensures
        final(fd)@ == old(fd)@ + outputs_bytes(outputs@),
{
    let mut k: usize = 0;
    assert(outputs@.take(0) =~= Seq::<u64>::empty());
    assert(fd@ =~= old(fd)@ + outputs_bytes(outputs@.take(0)));
    while k < outputs.len()
        invariant
            k <= outputs.len(),
            fd@ == old(fd)@ + outputs_bytes(outputs@.take(k as int)),
        decreases outputs.len() - k,
    {
        push_u64_be(fd, outputs[k]);
        proof {
            assert(outputs@.take(k + 1).drop_last() =~= outputs@.take(k as int));
            assert(fd@ =~= old(fd)@ + outputs_bytes(outputs@.take(k + 1)));
        }
        k = k + 1;
    }
    assert(outputs@.take(outputs.len() as int) =~= outputs@);
}

impl CompactedBlock {
    /// A block with a coinbase of zeros and no other transaction.
    pub fn empty() -> (block: CompactedBlock)
        ensures
            block@.coinbase_txid@ == seq![0u8, 0u8, 0u8, 0u8, 0u8, 0u8, 0u8, 0u8],
            block@.coinbase_sats == 0,
            block@.transactions.len() == 0,
    {
        let block = CompactedBlock((([0, 0, 0, 0, 0, 0, 0, 0], 0), Vec::new()));
        assert(block@.coinbase_txid@ =~= seq![0u8, 0u8, 0u8, 0u8, 0u8, 0u8, 0u8, 0u8]);
        block
    }

    /// Whether every count of the block fits its two-byte field.
    pub fn is_encodable(&self) -> (ok: bool)
        ensures
            ok == encodable(self@),
    {
        let txs = &self.0.1;
        if txs.len() > u16::MAX as usize {
            return false;
        }
        let mut i: usize = 0;
        while i < txs.len()
            invariant
                i <= txs.len(),
                txs == &self.0.1,
                txs.len() <= u16::MAX,
                forall|j: int|
                    0 <= j < i ==> {
                        &&& (#[trigger] self@.transactions[j]).inputs.len() <= u16::MAX
                        &&& self@.transactions[j].outputs.len() <= u16::MAX
                    },
            decreases txs.len() - i,
        {
            let tx = &txs[i];
            if tx.1.len() > u16::MAX as usize || tx.2.len() > u16::MAX as usize {
                assert(self@.transactions[i as int] == compacted_transaction(txs@[i as int]));
                return false;
            }
            assert(self@.transactions[i as int] == compacted_transaction(txs@[i as int]));
            i = i + 1;
        }
        true
    }

    /// Appends the packed bytes of the block to `fd`.
    ///
    /// A block with a count that does not fit its field has no packed
    /// bytes: nothing is written then.
    pub fn serialize_to_lazy_format(&self, fd: &mut Vec<u8>) -> (done: Result<(), EncodeError>)
        ensures
            done is Ok <==> encodable(self@),
            done is Ok ==> final(fd)@ == old(fd)@ + packed_bytes(self@),
            done is Err ==> done == Err::<(), EncodeError>(EncodeError::FieldOverflow)
                && final(fd)@ == old(fd)@,
    {
        if !self.is_encodable() {
            return Err(EncodeError::FieldOverflow);
        }
        let txs = &self.0.1;
        let ghost view = self@.transactions;
        // Number of transactions in the block (not including coinbase)
        push_u16_be(fd, txs.len() as u16);
        let ghost head = fd@;
        // For each transaction: number of inputs, number of outputs
        let mut i: usize = 0;
        assert(view.take(0) =~= Seq::<TransactionView>::empty());
        assert(fd@ =~= head + directory_bytes(view.take(0)));
        while i < txs.len()
            invariant
                i <= txs.len(),
                txs == &self.0.1,
                view == self@.transactions,
                encodable(self@),
                fd@ == head + directory_bytes(view.take(i as int)),
            decreases txs.len() - i,
        {
            let tx = &txs[i];
            assert(view[i as int] == compacted_transaction(txs@[i as int]));
            push_u16_be(fd, tx.1.len() as u16);
            push_u16_be(fd, tx.2.len() as u16);
            proof {
                assert(view.take(i + 1).drop_last() =~= view.take(i as int));
                assert(view.take(i + 1).last() == view[i as int]);
                assert(fd@ =~= head + directory_bytes(view.take(i + 1)));
            }
            i = i + 1;
        }
        assert(view.take(txs.len() as int) =~= view);
        // Coinbase transaction
        push_txid(fd, &self.0.0.0);
        push_u64_be(fd, self.0.0.1);
        let ghost middle = fd@;
        // For each transaction
        let mut i: usize = 0;
        assert(fd@ =~= middle + transactions_bytes(view.take(0)));
        while i < txs.len()
            invariant
                i <= txs.len(),
                txs == &self.0.1,
                view == self@.transactions,
                fd@ == middle + transactions_bytes(view.take(i as int)),
            decreases txs.len() - i,
        {
            let ghost before = fd@;
            let tx = &txs[i];
            assert(view[i as int] == compacted_transaction(txs@[i as int]));
            push_txid(fd, &tx.0);
            write_inputs(fd, &tx.1);
            write_outputs(fd, &tx.2);
            proof {
                assert(view.take(i + 1).drop_last() =~= view.take(i as int));
                assert(view.take(i + 1).last() == view[i as int]);
                assert(fd@ =~= before + transaction_bytes(view[i as int]));
                assert(fd@ =~= middle + transactions_bytes(view.take(i + 1)));
            }
            i = i + 1;
        }
        assert(fd@ =~= old(fd)@ + packed_bytes(self@));
        Ok(())
    }

    /// Decodes a packed block whole. What comes out packs to the same
    /// bytes again.
    pub fn deserialize(bytes: &[u8]) -> (decoded: Result<CompactedBlock, CorruptedBlockBytes>)
        ensures
            decoded is Ok <==> well_formed(bytes@),
            decoded is Ok ==> decoded->Ok_0@ == decoded_block(bytes@),
            decoded is Ok ==> encodable(decoded->Ok_0@) && packed_bytes(decoded->Ok_0@) == bytes@,
    {
        proof {
            if well_formed(bytes@) {
                lemma_unpacked_round_trip(bytes@);
            }
        }
        let lazy_block = match LazyBlock::parse(slice_to_vec(bytes)) {
            Ok(lazy_block) => lazy_block,
            Err(corrupted) => {
                return Err(corrupted);
            },
        };
        let coinbase = lazy_block.get_coinbase_txid();
        let coinbase_txid: [u8; 8] = [
            coinbase[0],
            coinbase[1],
            coinbase[2],
            coinbase[3],
            coinbase[4],
            coinbase[5],
            coinbase[6],
            coinbase[7],
        ];
        assert(coinbase_txid =~= lazy_block@.coinbase_txid);
        let coinbase_sats: u64 = lazy_block.get_coinbase_sats();
        let mut txs: Vec<([u8; 8], Vec<([u8; 8], u32, u16, u64)>, Vec<u64>)> = Vec::with_capacity(
            lazy_block.tx_len as usize,
        );
        let mut iter = lazy_block.iter_tx();
        let mut i: u16 = 0;
        while i < lazy_block.tx_len
            invariant
                i <= lazy_block.tx_len,
                lazy_block.wf(),
                iter.wf(),
                iter.block() == &lazy_block,
                iter.position() == i,
                txs@.len() == i,
                forall|j: int|
                    0 <= j < i ==> compacted_transaction(#[trigger] txs@[j])
                        == lazy_block@.transactions[j],
            decreases lazy_block.tx_len - i,
        {
            match iter.next() {
                Some(tx) => {
                    txs.push(eager_transaction(tx));
                },
                None => {
                    assert(false);
                },
            }
            i = i + 1;
        }
        let block = CompactedBlock(((coinbase_txid, coinbase_sats), txs));
        assert(block@.transactions =~= lazy_block@.transactions);
        Ok(block)
    }
}

/// A decoded transaction as a tuple of the eager form.
fn eager_transaction(tx: LazyBlockTransaction) -> (eager: (
    [u8; 8],
    Vec<([u8; 8], u32, u16, u64)>,
    Vec<u64>,
))
    ensures
        compacted_transaction(eager) == tx@,
{
    let mut inputs: Vec<([u8; 8], u32, u16, u64)> = Vec::with_capacity(tx.inputs.len());
    let mut k: usize = 0;
    while k < tx.inputs.len()
        invariant
            k <= tx.inputs.len(),
            inputs@.len() == k,
            forall|j: int| 0 <= j < k ==> compacted_input(#[trigger] inputs@[j]) == tx.inputs@[j],
        decreases tx.inputs.len() - k,
    {
        let input = &tx.inputs[k];
        inputs.push((input.txin, input.block_height, input.vout, input.txin_value));
        k = k + 1;
    }
    assert(compacted_inputs(inputs@) =~= tx.inputs@);
    (tx.txid, inputs, tx.outputs)
}

} // verus!
