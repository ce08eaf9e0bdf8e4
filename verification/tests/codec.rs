use hord_db::block::{
    LazyBlock, LazyBlockTransaction, LazyBlockTransactionInput, LazyBlockTransactionIterator,
};
use hord_db::compacted::CompactedBlock;
use hord_db::error::{CorruptedBlockBytes, EncodeError};

type EagerTx = ([u8; 8], Vec<([u8; 8], u32, u16, u64)>, Vec<u64>);

const COINBASE: [u8; 8] = [0xc0, 0xc1, 0xc2, 0xc3, 0xc4, 0xc5, 0xc6, 0xc7];
const TX_ONE: [u8; 8] = [0x10, 0x11, 0x12, 0x13, 0x14, 0x15, 0x16, 0x17];
const TX_TWO: [u8; 8] = [0x20, 0x21, 0x22, 0x23, 0x24, 0x25, 0x26, 0x27];
const SPENT_A: [u8; 8] = [0xa0, 0xa1, 0xa2, 0xa3, 0xa4, 0xa5, 0xa6, 0xa7];
const SPENT_B: [u8; 8] = [0xb0, 0xb1, 0xb2, 0xb3, 0xb4, 0xb5, 0xb6, 0xb7];

fn sample_transactions() -> Vec<EagerTx> {
    vec![
        (TX_ONE, vec![(SPENT_A, 0x0001_0203, 0x0405, 0x0607_0809_0a0b_0c0d)], vec![1, 2]),
        (
            TX_TWO,
            vec![(SPENT_A, 7, 1, 1_000), (SPENT_B, 70_000, 65_535, u64::MAX)],
            vec![0x0102_0304_0506_0708],
        ),
    ]
}

fn sample_block() -> CompactedBlock {
    CompactedBlock(((COINBASE, 0x1112_1314_1516_1718), sample_transactions()))
}

fn sample_bytes() -> Vec<u8> {
    let mut bytes = Vec::new();
    sample_block().serialize_to_lazy_format(&mut bytes).expect("the block fits the layout");
    bytes
}

fn lazy_input(input: &([u8; 8], u32, u16, u64)) -> LazyBlockTransactionInput {
    LazyBlockTransactionInput {
        txin: input.0,
        block_height: input.1,
        vout: input.2,
        txin_value: input.3,
    }
}

fn lazy_transaction(tx: &EagerTx) -> LazyBlockTransaction {
    LazyBlockTransaction {
        txid: tx.0,
        inputs: tx.1.iter().map(lazy_input).collect(),
        outputs: tx.2.clone(),
    }
}

#[test]
fn the_packed_layout_is_reproduced_byte_by_byte() {
    let mut expected: Vec<u8> = Vec::new();
    // number of transactions that are not the coinbase
    expected.extend([0x00, 0x02]);
    // directory: inputs and outputs of each
    expected.extend([0x00, 0x01, 0x00, 0x02]);
    expected.extend([0x00, 0x02, 0x00, 0x01]);
    // coinbase: identifier prefix and value
    expected.extend(COINBASE);
    expected.extend([0x11, 0x12, 0x13, 0x14, 0x15, 0x16, 0x17, 0x18]);
    // first transaction
    expected.extend(TX_ONE);
    expected.extend(SPENT_A);
    expected.extend([0x00, 0x01, 0x02, 0x03]);
    expected.extend([0x04, 0x05]);
    expected.extend([0x06, 0x07, 0x08, 0x09, 0x0a, 0x0b, 0x0c, 0x0d]);
    expected.extend([0, 0, 0, 0, 0, 0, 0, 1]);
    expected.extend([0, 0, 0, 0, 0, 0, 0, 2]);
    // second transaction
    expected.extend(TX_TWO);
    expected.extend(SPENT_A);
    expected.extend([0, 0, 0, 7]);
    expected.extend([0, 1]);
    expected.extend([0, 0, 0, 0, 0, 0, 0x03, 0xe8]);
    expected.extend(SPENT_B);
    expected.extend([0x00, 0x01, 0x11, 0x70]);
    expected.extend([0xff, 0xff]);
    expected.extend([0xff; 8]);
    expected.extend([0x01, 0x02, 0x03, 0x04, 0x05, 0x06, 0x07, 0x08]);
    assert_eq!(sample_bytes(), expected);
    assert_eq!(expected.len(), 2 + 2 * 4 + 16 + (8 + 22 + 16) + (8 + 44 + 8));
}

#[test]
fn serializing_appends_to_what_the_buffer_holds() {
    let mut buffer = vec![0xee, 0xff];
    sample_block().serialize_to_lazy_format(&mut buffer).expect("the block fits the layout");
    assert_eq!(&buffer[..2], &[0xee, 0xff]);
    assert_eq!(&buffer[2..], &sample_bytes()[..]);
}

#[test]
fn the_empty_block_packs_to_a_count_of_zero_and_a_coinbase_of_zeros() {
    let block = CompactedBlock::empty();
    assert_eq!(block.0, (([0u8; 8], 0u64), vec![]));
    let mut bytes = Vec::new();
    block.serialize_to_lazy_format(&mut bytes).expect("the block fits the layout");
    assert_eq!(bytes, vec![0u8; 18]);
}

#[test]
fn a_packed_block_is_decoded_to_the_block_that_was_packed() {
    let decoded = CompactedBlock::deserialize(&sample_bytes()).expect("well formed");
    assert_eq!(decoded.0, sample_block().0);
    let empty = CompactedBlock::deserialize(&[0u8; 18]).expect("well formed");
    assert_eq!(empty.0, CompactedBlock::empty().0);
}

#[test]
fn the_lazy_view_reads_the_coinbase_without_decoding_the_block() {
    let block = LazyBlock::new(sample_bytes());
    assert_eq!(block.tx_len, 2);
    assert!(block.is_well_formed());
    assert_eq!(block.get_coinbase_data_pos(), 10);
    assert_eq!(block.get_transactions_data_pos(), 26);
    assert_eq!(block.get_coinbase_txid(), &COINBASE[..]);
    assert_eq!(block.get_coinbase_sats(), 0x1112_1314_1516_1718);
    assert_eq!(block.get_u64_at_pos(18), 0x1112_1314_1516_1718);
    assert_eq!(block.get_transaction_format(0), (1, 2, 8 + 22 + 16));
    assert_eq!(block.get_transaction_format(1), (2, 1, 8 + 44 + 8));
}

#[test]
fn the_lazy_view_decodes_the_transaction_at_a_position() {
    let block = LazyBlock::new(sample_bytes());
    let first = block.get_lazy_transaction_at_pos(26 + 8, TX_ONE, 1, 2);
    assert_eq!(first, lazy_transaction(&sample_transactions()[0]));
    let second = block.get_lazy_transaction_at_pos(26 + 46 + 8, TX_TWO, 2, 1);
    assert_eq!(second, lazy_transaction(&sample_transactions()[1]));
}

#[test]
fn the_lazy_view_finds_what_the_eager_decode_holds() {
    let block = LazyBlock::new(sample_bytes());
    let eager = CompactedBlock::deserialize(&sample_bytes()).expect("well formed");
    for tx in eager.0 .1.iter() {
        let found = block.find_and_serialize_transaction_with_txid(&tx.0).expect("in the block");
        assert_eq!(found, lazy_transaction(tx));
    }
    assert_eq!(block.find_and_serialize_transaction_with_txid(&COINBASE), None);
    assert_eq!(block.find_and_serialize_transaction_with_txid(&TX_ONE[..7]), None);
    assert_eq!(LazyBlock::new(vec![0u8; 18]).find_and_serialize_transaction_with_txid(&[0u8; 8]), None);
}

#[test]
fn of_two_transactions_with_one_prefix_the_first_is_found() {
    let twins: Vec<EagerTx> = vec![(TX_ONE, vec![], vec![1]), (TX_ONE, vec![], vec![2])];
    let mut bytes = Vec::new();
    CompactedBlock(((COINBASE, 0), twins))
        .serialize_to_lazy_format(&mut bytes)
        .expect("the block fits the layout");
    let block = LazyBlock::new(bytes);
    let found = block.find_and_serialize_transaction_with_txid(&TX_ONE).expect("in the block");
    assert_eq!(found.outputs, vec![1]);
}

#[test]
fn the_transactions_are_walked_in_block_order() {
    let block = LazyBlock::new(sample_bytes());
    let mut iter = block.iter_tx();
    assert_eq!(iter.next(), Some(lazy_transaction(&sample_transactions()[0])));
    assert_eq!(iter.next(), Some(lazy_transaction(&sample_transactions()[1])));
    assert_eq!(iter.next(), None);
    assert_eq!(iter.next(), None);
    let mut again = LazyBlockTransactionIterator::new(&block);
    assert_eq!(again.next().map(|tx| tx.txid), Some(TX_ONE));
}

#[test]
fn bytes_that_are_no_packed_block_are_told_apart() {
    let bytes = sample_bytes();
    assert!(LazyBlock::parse(bytes.clone()).is_ok());
    // one byte short
    let mut short = bytes.clone();
    short.pop();
    assert!(!LazyBlock::new(short.clone()).is_well_formed());
    assert_eq!(LazyBlock::parse(short.clone()).err(), Some(CorruptedBlockBytes));
    assert_eq!(CompactedBlock::deserialize(&short).err(), Some(CorruptedBlockBytes));
    // one byte long
    let mut long = bytes.clone();
    long.push(0);
    assert_eq!(LazyBlock::parse(long).err(), Some(CorruptedBlockBytes));
    // a count that the bytes do not hold
    let mut more = bytes.clone();
    more[1] = 3;
    assert_eq!(LazyBlock::parse(more).err(), Some(CorruptedBlockBytes));
    // nothing at all, or the count alone
    assert_eq!(LazyBlock::parse(vec![]).err(), Some(CorruptedBlockBytes));
    assert_eq!(LazyBlock::parse(vec![0]).err(), Some(CorruptedBlockBytes));
    assert_eq!(LazyBlock::parse(vec![0, 0]).err(), Some(CorruptedBlockBytes));
    // a count that differs from the one in the bytes
    let unlike = LazyBlock { bytes: bytes.clone(), tx_len: 1 };
    assert!(!unlike.is_well_formed());
}

#[test]
fn a_count_that_does_not_fit_its_field_is_refused() {
    let many_outputs: Vec<EagerTx> = vec![(TX_ONE, vec![], vec![0u64; 65_536])];
    let block = CompactedBlock(((COINBASE, 0), many_outputs));
    assert!(!block.is_encodable());
    let mut buffer = vec![1, 2, 3];
    assert_eq!(block.serialize_to_lazy_format(&mut buffer), Err(EncodeError::FieldOverflow));
    assert_eq!(buffer, vec![1, 2, 3]);
    let most_outputs: Vec<EagerTx> = vec![(TX_ONE, vec![], vec![0u64; 65_535])];
    let block = CompactedBlock(((COINBASE, 0), most_outputs));
    assert!(block.is_encodable());
    let mut buffer = Vec::new();
    assert_eq!(block.serialize_to_lazy_format(&mut buffer), Ok(()));
    assert_eq!(buffer.len(), 2 + 4 + 16 + 8 + 8 * 65_535);
    let many_transactions: Vec<EagerTx> = vec![(TX_ONE, vec![], vec![]); 65_536];
    assert!(!CompactedBlock(((COINBASE, 0), many_transactions)).is_encodable());
}

#[test]
fn a_collision_of_prefixes_is_seen() {
    assert!(!sample_block().has_txid_collision());
    let twins: Vec<EagerTx> = vec![(TX_ONE, vec![], vec![1]), (TX_ONE, vec![], vec![2])];
    assert!(CompactedBlock(((COINBASE, 0), twins)).has_txid_collision());
    let like_coinbase: Vec<EagerTx> = vec![(TX_ONE, vec![], vec![1]), (COINBASE, vec![], vec![])];
    assert!(CompactedBlock(((COINBASE, 0), like_coinbase)).has_txid_collision());
}
