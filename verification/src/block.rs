//! Blocks as the index holds them: the eager form, with every transaction
//! decoded, and the lazy form, which keeps the packed bytes and decodes a
//! transaction only when it is asked for.

use vstd::prelude::*;
use crate::bytes::{
    is_txid, read_txid, read_u16_be, read_u32_be, read_u64_be, spec_u64_at,
};
use crate::error::CorruptedBlockBytes;
use crate::layout::{
    decoded_block, lemma_tx_offset_monotonic, spec_coinbase_pos, spec_find_transaction,
    spec_inputs_at, spec_inputs_len, spec_outputs_at, spec_outputs_len, spec_transactions_pos,
    spec_tx_count, spec_tx_offset, spec_tx_size, spec_txid_at, well_formed, BlockView,
    TransactionView, INPUT_SIZE, OUTPUT_SIZE, SATS_LEN, TXID_LEN,
};

verus! {

/// One input of a transaction: the output that it spends and what that
/// output held.
#[derive(Debug, Clone, Copy, PartialEq, Eq)]
pub struct LazyBlockTransactionInput {
    /// Identifier prefix of the transaction that made the spent output.
    pub txin: [u8; 8],
    /// Height of the block that holds that transaction.
    pub block_height: u32,
    /// Index of the spent output in that transaction.
    pub vout: u16,
    /// Amount of the spent output.
    pub txin_value: u64,
}

/// A transaction that is not the coinbase, decoded.
#[derive(Debug, Clone, PartialEq, Eq)]
pub struct LazyBlockTransaction {
    pub txid: [u8; 8],
    pub inputs: Vec<LazyBlockTransactionInput>,
    pub outputs: Vec<u64>,
}

impl View for LazyBlockTransaction {
    type V = TransactionView;

    open spec fn view(&self) -> TransactionView {
        TransactionView { txid: self.txid, inputs: self.inputs@, outputs: self.outputs@ }
    }
}

/// A block in packed form. `tx_len` repeats the count that the first two
/// bytes hold.
#[derive(Debug)]
pub struct LazyBlock {
    pub bytes: Vec<u8>,
    pub tx_len: u16,
}

impl View for LazyBlock {
    type V = BlockView;

    /// The block that the bytes stand for.
    open spec fn view(&self) -> BlockView {
        decoded_block(self.bytes@)
    }
}

impl LazyBlock {
    /// The bytes are a packed block, and `tx_len` is its count.
    pub open spec fn wf(&self) -> bool {
        &&& well_formed(self.bytes@)
        &&& self.tx_len == spec_tx_count(self.bytes@)
    }

    /// Takes the bytes as they are; only the count is read.
    pub fn new(bytes: Vec<u8>) -> (block: LazyBlock)
        requires
            bytes.len() >= 2,
        ensures
            block.bytes == bytes,
            block.tx_len == spec_tx_count(bytes@),
    {
        let tx_len: u16 = read_u16_be(bytes.as_slice(), 0);
        LazyBlock { bytes, tx_len }
    }

    /// Takes the bytes where they are a packed block.
    pub fn parse(bytes: Vec<u8>) -> (parsed: Result<LazyBlock, CorruptedBlockBytes>)
        ensures
            parsed is Ok <==> well_formed(bytes@),
            parsed matches Ok(block) ==> block.wf() && block.bytes == bytes,
    {
        if bytes.len() < 2 {
            return Err(CorruptedBlockBytes);
        }
        let block = LazyBlock::new(bytes);
        if block.is_well_formed() {
            Ok(block)
        } else {
            Err(CorruptedBlockBytes)
        }
    }

    /// Whether the bytes are a packed block with `tx_len` transactions.
    pub fn is_well_formed(&self) -> (ok: bool)
        ensures
            ok == self.wf(),
    {
        let len: usize = self.bytes.len();
        if len < 2 {
            return false;
        }
        if read_u16_be(self.bytes.as_slice(), 0) != self.tx_len {
            return false;
        }
        let start: usize = self.get_transactions_data_pos();
        if len < start {
            proof {
                lemma_tx_offset_monotonic(self.bytes@, 0, self.tx_len as int);
            }
            return false;
        }
        let mut index: u16 = 0;
        let mut offset: usize = 0;
        while index < self.tx_len
            invariant
                index <= self.tx_len,
                self.tx_len == spec_tx_count(self.bytes@),
                len == self.bytes.len(),
                start == spec_transactions_pos(self.bytes@),
                start <= len,
                offset == spec_tx_offset(self.bytes@, index as int),
                start + offset <= len,
            decreases self.tx_len - index,
        {
            let (_, _, size) = self.get_transaction_format(index);
            if size > len - start - offset {
                proof {
                    lemma_tx_offset_monotonic(self.bytes@, index as int, self.tx_len as int);
                }
                return false;
            }
            offset = offset + size;
            index = index + 1;
        }
        start + offset == len
    }

    /// Where the coinbase's identifier prefix stands.
    pub fn get_coinbase_data_pos(&self) -> (pos: usize)
        ensures
            pos == 2 + 4 * self.tx_len,
            self.tx_len == spec_tx_count(self.bytes@) ==> pos == spec_coinbase_pos(self.bytes@),
    {
        let n: usize = self.tx_len as usize;
        2 + n * 2 * 2
    }

    /// The eight-byte number at `pos`.
    pub fn get_u64_at_pos(&self, pos: usize) -> (value: u64)
        requires
            pos + 8 <= self.bytes.len(),
        ensures
            value == spec_u64_at(self.bytes@, pos as int),
    {
        read_u64_be(self.bytes.as_slice(), pos)
    }

    /// The coinbase's identifier prefix.
    pub fn get_coinbase_txid(&self) -> (txid: &[u8])
        requires
            self.wf(),
        ensures
            txid@ == self@.coinbase_txid@,
    {
        let pos: usize = self.get_coinbase_data_pos();
        proof {
            lemma_tx_offset_monotonic(self.bytes@, 0, self.tx_len as int);
        }
        let txid = vstd::slice::slice_subrange(self.bytes.as_slice(), pos, pos + TXID_LEN);
        assert(txid@ =~= self@.coinbase_txid@);
        txid
    }

    /// The coinbase's value: what its outputs hold together.
    pub fn get_coinbase_sats(&self) -> (sats: u64)
        requires
            self.wf(),
        ensures
            sats == self@.coinbase_sats,
    {
        proof {
            lemma_tx_offset_monotonic(self.bytes@, 0, self.tx_len as int);
        }
        let pos: usize = self.get_coinbase_data_pos() + TXID_LEN;
        self.get_u64_at_pos(pos)
    }

    /// Where the first transaction stands.
    pub fn get_transactions_data_pos(&self) -> (pos: usize)
        ensures
            pos == 2 + 4 * self.tx_len + TXID_LEN + SATS_LEN,
            self.tx_len == spec_tx_count(self.bytes@) ==> pos == spec_transactions_pos(
                self.bytes@,
            ),
    {
        self.get_coinbase_data_pos() + TXID_LEN + SATS_LEN
    }

    /// What the directory says of transaction `index`: the number of its
    /// inputs, the number of its outputs, and the bytes that it takes.
    pub fn get_transaction_format(&self, index: u16) -> (format: (u16, u16, usize))
        requires
            6 + 4 * index <= self.bytes.len(),
        ensures
            format.0 == spec_inputs_len(self.bytes@, index as int),
            format.1 == spec_outputs_len(self.bytes@, index as int),
            format.2 == spec_tx_size(self.bytes@, index as int),
    {
        let inputs_len_pos: usize = 2 + (index as usize) * 2 * 2;
        let inputs: u16 = read_u16_be(self.bytes.as_slice(), inputs_len_pos);
        let outputs: u16 = read_u16_be(self.bytes.as_slice(), inputs_len_pos + 2);
        let size: usize = TXID_LEN + (inputs as usize * INPUT_SIZE) + (outputs as usize
            * OUTPUT_SIZE);
        (inputs, outputs, size)
    }

    /// Decodes the inputs and outputs that stand at `pos`, behind the
    /// identifier prefix `txid` of their transaction.
    pub fn get_lazy_transaction_at_pos(
        &self,
        pos: usize,
        txid: [u8; 8],
        inputs_len: u16,
        outputs_len: u16,
    ) -> (tx: LazyBlockTransaction)
        requires
            pos + inputs_len * INPUT_SIZE + outputs_len * OUTPUT_SIZE <= self.bytes.len(),
        ensures
            tx.txid == txid,
            tx.inputs@ == spec_inputs_at(self.bytes@, pos as int, inputs_len as int),
            tx.outputs@ == spec_outputs_at(
                self.bytes@,
                pos + inputs_len * INPUT_SIZE,
                outputs_len as int,
            ),
    {
        let mut inputs: Vec<LazyBlockTransactionInput> = Vec::with_capacity(inputs_len as usize);
        let mut cursor: usize = pos;
        let mut i: u16 = 0;
        while i < inputs_len
            invariant
                i <= inputs_len,
                cursor == pos + i * INPUT_SIZE,
                pos + inputs_len * INPUT_SIZE + outputs_len * OUTPUT_SIZE <= self.bytes.len(),
                inputs@ == spec_inputs_at(self.bytes@, pos as int, i as int),
            decreases inputs_len - i,
        {
            let input = LazyBlockTransactionInput {
                txin: read_txid(self.bytes.as_slice(), cursor),
                block_height: read_u32_be(self.bytes.as_slice(), cursor + 8),
                vout: read_u16_be(self.bytes.as_slice(), cursor + 12),
                txin_value: read_u64_be(self.bytes.as_slice(), cursor + 14),
            };
            assert(input.txin =~= spec_txid_at(self.bytes@, cursor as int));
            inputs.push(input);
            assert(inputs@ =~= spec_inputs_at(self.bytes@, pos as int, i + 1));
            cursor = cursor + INPUT_SIZE;
            i = i + 1;
        }
        let outputs_pos: usize = cursor;
        let mut outputs: Vec<u64> = Vec::with_capacity(outputs_len as usize);
        let mut j: u16 = 0;
        while j < outputs_len
            invariant
                j <= outputs_len,
                outputs_pos == pos + inputs_len * INPUT_SIZE,
                cursor == outputs_pos + j * OUTPUT_SIZE,
                outputs_pos + outputs_len * OUTPUT_SIZE <= self.bytes.len(),
                outputs@ == spec_outputs_at(self.bytes@, outputs_pos as int, j as int),
            decreases outputs_len - j,
        {
            let value: u64 = read_u64_be(self.bytes.as_slice(), cursor);
            outputs.push(value);
            assert(outputs@ =~= spec_outputs_at(self.bytes@, outputs_pos as int, j + 1));
            cursor = cursor + OUTPUT_SIZE;
            j = j + 1;
        }
        LazyBlockTransaction { txid, inputs, outputs }
    }

    /// Transaction `index`, which stands `offset` bytes behind the first one.
    fn transaction_at_offset(&self, index: u16, offset: usize) -> (found: (
        LazyBlockTransaction,
        usize,
    ))
        requires
            self.wf(),
            index < self.tx_len,
            offset == spec_tx_offset(self.bytes@, index as int),
        ensures
            found.0@ == self@.transactions[index as int],
            found.1 == spec_tx_offset(self.bytes@, index + 1),
    {
        proof {
            lemma_tx_offset_monotonic(self.bytes@, index as int, self.tx_len as int);
            assert(self.bytes@.len() == self.bytes.len());
        }
        let pos: usize = self.get_transactions_data_pos() + offset;
        let (inputs_len, outputs_len, size) = self.get_transaction_format(index);
        let txid: [u8; 8] = read_txid(self.bytes.as_slice(), pos);
        assert(txid =~= spec_txid_at(self.bytes@, pos as int));
        let tx = self.get_lazy_transaction_at_pos(pos + TXID_LEN, txid, inputs_len, outputs_len);
        (tx, offset + size)
    }

    /// The first transaction whose identifier prefix is `searched_txid`.
    ///
    /// The directory is walked from the front, and only the transaction that
    /// is found gets decoded.
    pub fn find_and_serialize_transaction_with_txid(&self, searched_txid: &[u8]) -> (entry: Option<
        LazyBlockTransaction,
    >)
        requires
            self.wf(),
        ensures
            entry is Some <==> spec_find_transaction(self@.transactions, searched_txid@) is Some,
            entry is Some ==> Some(entry->0@) == spec_find_transaction(
                self@.transactions,
                searched_txid@,
            ),
    {
        let start: usize = self.get_transactions_data_pos();
        let mut cumulated_offset: usize = 0;
        let mut i: u16 = 0;
        assert(self@.transactions.skip(0) =~= self@.transactions);
        while i < self.tx_len
            invariant
                self.wf(),
                i <= self.tx_len,
                start == spec_transactions_pos(self.bytes@),
                cumulated_offset == spec_tx_offset(self.bytes@, i as int),
                spec_find_transaction(self@.transactions, searched_txid@) == spec_find_transaction(
                    self@.transactions.skip(i as int),
                    searched_txid@,
                ),
            decreases self.tx_len - i,
        {
            proof {
                lemma_tx_offset_monotonic(self.bytes@, i as int, self.tx_len as int);
                assert(self.bytes@.len() == self.bytes.len());
                assert(self@.transactions.skip(i as int).drop_first() =~= self@.transactions.skip(
                    i + 1,
                ));
                assert(self@.transactions.skip(i as int)[0] == self@.transactions[i as int]);
            }
            let pos: usize = start + cumulated_offset;
            let (inputs_len, outputs_len, size) = self.get_transaction_format(i);
            let txid: [u8; 8] = read_txid(self.bytes.as_slice(), pos);
            assert(txid =~= spec_txid_at(self.bytes@, pos as int));
            if is_txid(searched_txid, &txid) {
                let tx = self.get_lazy_transaction_at_pos(
                    pos + TXID_LEN,
                    txid,
                    inputs_len,
                    outputs_len,
                );
                assert(tx@ == self@.transactions[i as int]);
                return Some(tx);
            }
            cumulated_offset = cumulated_offset + size;
            i = i + 1;
        }
        None
    }

    /// Walks the transactions that are not the coinbase, in block order.
    pub fn iter_tx(&self) -> (iter: LazyBlockTransactionIterator<'_>)
        requires
            self.wf(),
        ensures
            iter.wf(),
            iter.block() == self,
            iter.position() == 0,
    {
        LazyBlockTransactionIterator::new(self)
    }
}

/// A walk over the transactions of a packed block, in block order.
pub struct LazyBlockTransactionIterator<'a> {
    lazy_block: &'a LazyBlock,
    tx_index: u16,
    cumulated_offset: usize,
}

impl<'a> LazyBlockTransactionIterator<'a> {
    /// The block that is walked.
    pub closed spec fn block(&self) -> &LazyBlock {
        self.lazy_block
    }

    /// The index of the transaction that comes next.
    pub closed spec fn position(&self) -> int {
        self.tx_index as int
    }

    /// The block is a packed block, and the walk stands at the start of a
    /// transaction or at the end.
    pub closed spec fn wf(&self) -> bool {
        &&& self.lazy_block.wf()
        &&& self.tx_index <= self.lazy_block.tx_len
        &&& self.cumulated_offset == spec_tx_offset(self.lazy_block.bytes@, self.tx_index as int)
    }

    /// A walk that starts at the first transaction.
    pub fn new(lazy_block: &'a LazyBlock) -> (iter: LazyBlockTransactionIterator<'a>)
        requires
            lazy_block.wf(),
        ensures
            iter.wf(),
            iter.block() == lazy_block,
            iter.position() == 0,
    {
        LazyBlockTransactionIterator { lazy_block, tx_index: 0, cumulated_offset: 0 }
    }

    /// The next transaction, or `None` behind the last one.
    pub fn next(&mut self) -> (item: Option<LazyBlockTransaction>)
        requires
            old(self).wf(),
        ensures
            final(self).wf(),
            final(self).block() == old(self).block(),
            old(self).position() < old(self).block()@.transactions.len() ==> {
                &&& item is Some
                &&& item->0@ == old(self).block()@.transactions[old(self).position()]
                &&& final(self).position() == old(self).position() + 1
            },
            old(self).position() >= old(self).block()@.transactions.len() ==> {
                &&& item is None
                &&& final(self).position() == old(self).position()
            },
    {
        if self.tx_index >= self.lazy_block.tx_len {
            return None;
        }
        let (tx, next_offset) = self.lazy_block.transaction_at_offset(
            self.tx_index,
            self.cumulated_offset,
        );
        self.cumulated_offset = next_offset;
        self.tx_index = self.tx_index + 1;
        Some(tx)
    }
}

} // verus!
