use hord_db::block::LazyBlock;
use hord_db::compacted::CompactedBlock;
use hord_db::error::EncodeError;
use hord_db::record::{
    FullBlock, FullInput, FullPrevout, FullTransaction, StandardizedBlock, StandardizedInput,
    StandardizedTransaction,
};
use hord_db::txid::txid_prefix;

const COINBASE_HASH: &str = "c0c1c2c3c4c5c6c7000102030405060708090a0b0c0d0e0f1011121314151617";
const TX_HASH: &str = "1011121314151617aaaaaaaaaaaaaaaaaaaaaaaaaaaaaaaaaaaaaaaaaaaaaaaa";
const SPENT_HASH: &str = "A0A1A2A3A4A5A6A7bbbbbbbbbbbbbbbbbbbbbbbbbbbbbbbbbbbbbbbbbbbbbbbb";

const COINBASE: [u8; 8] = [0xc0, 0xc1, 0xc2, 0xc3, 0xc4, 0xc5, 0xc6, 0xc7];
const TX: [u8; 8] = [0x10, 0x11, 0x12, 0x13, 0x14, 0x15, 0x16, 0x17];
const SPENT: [u8; 8] = [0xa0, 0xa1, 0xa2, 0xa3, 0xa4, 0xa5, 0xa6, 0xa7];

fn with_0x(hash: &str) -> String {
    format!("0x{}", hash)
}

fn full_input(txid: &str, vout: u32, height: u64, value: u64) -> FullInput {
    FullInput {
        txid: Some(txid.to_string()),
        vout: Some(vout),
        prevout: Some(FullPrevout { height, value }),
    }
}

fn coinbase_input() -> FullInput {
    FullInput { txid: None, vout: None, prevout: None }
}

fn full_block() -> FullBlock {
    FullBlock {
        height: 101,
        tx: vec![
            FullTransaction {
                txid: COINBASE_HASH.to_string(),
                vin: vec![coinbase_input()],
                vout: vec![5_000_000_000, 50, 0],
            },
            FullTransaction {
                txid: TX_HASH.to_string(),
                vin: vec![full_input(SPENT_HASH, 3, 100, 1_000)],
                vout: vec![600, 350],
            },
        ],
    }
}

fn standardized_block() -> StandardizedBlock {
    StandardizedBlock {
        transactions: vec![
            StandardizedTransaction {
                txid: with_0x(COINBASE_HASH),
                inputs: vec![],
                outputs: vec![5_000_000_000, 50, 0],
            },
            StandardizedTransaction {
                txid: with_0x(TX_HASH),
                inputs: vec![StandardizedInput {
                    txid: with_0x(SPENT_HASH),
                    vout: 3,
                    block_height: 100,
                    value: 1_000,
                }],
                outputs: vec![600, 350],
            },
        ],
    }
}

fn expected_block() -> CompactedBlock {
    CompactedBlock((
        (COINBASE, 5_000_000_050),
        vec![(TX, vec![(SPENT, 100, 3, 1_000)], vec![600, 350])],
    ))
}

fn expected_bytes() -> Vec<u8> {
    let mut bytes = Vec::new();
    expected_block().serialize_to_lazy_format(&mut bytes).expect("the block fits the layout");
    bytes
}

#[test]
fn the_prefix_is_the_first_eight_bytes_that_the_digits_spell() {
    assert_eq!(txid_prefix(TX_HASH), Some(TX));
    assert_eq!(txid_prefix(&with_0x(TX_HASH)), Some(TX));
    assert_eq!(txid_prefix(SPENT_HASH), Some(SPENT));
    assert_eq!(txid_prefix("0123456789abcdef"), Some([0x01, 0x23, 0x45, 0x67, 0x89, 0xab, 0xcd, 0xef]));
    assert_eq!(txid_prefix("0x0123456789ABCDEF"), Some([0x01, 0x23, 0x45, 0x67, 0x89, 0xab, 0xcd, 0xef]));
    // fewer than eight bytes
    assert_eq!(txid_prefix("0123456789abcd"), None);
    assert_eq!(txid_prefix(""), None);
    assert_eq!(txid_prefix("0x"), None);
    // an odd number of digits
    assert_eq!(txid_prefix("0123456789abcdef0"), None);
    // no digits
    assert_eq!(txid_prefix("0123456789abcdeg"), None);
    assert_eq!(txid_prefix("0X0123456789abcdef"), None);
    assert_eq!(txid_prefix("0123456789abcd\u{e9}"), None);
}

#[test]
fn a_full_block_is_packed_to_the_layout() {
    let packed = LazyBlock::from_full_block(&full_block()).expect("the block can be packed");
    assert_eq!(packed.bytes, expected_bytes());
    assert_eq!(packed.tx_len, 1);
    assert!(packed.is_well_formed());
    let decoded = CompactedBlock::deserialize(&packed.bytes).expect("well formed");
    assert_eq!(decoded.0, expected_block().0);
}

#[test]
fn a_standardized_block_is_packed_to_the_same_layout() {
    let packed =
        LazyBlock::from_standardized_block(&standardized_block()).expect("the block can be packed");
    assert_eq!(packed.bytes, expected_bytes());
    let full = LazyBlock::from_full_block(&full_block()).expect("the block can be packed");
    assert_eq!(packed.bytes, full.bytes);
}

#[test]
fn a_block_of_a_coinbase_alone_is_packed() {
    let mut block = full_block();
    block.tx.truncate(1);
    let packed = LazyBlock::from_full_block(&block).expect("the block can be packed");
    assert_eq!(packed.tx_len, 0);
    assert_eq!(packed.bytes.len(), 18);
    assert_eq!(packed.get_coinbase_txid(), &COINBASE[..]);
    assert_eq!(packed.get_coinbase_sats(), 5_000_000_050);
}

#[test]
fn a_block_without_coinbase_is_refused() {
    let block = FullBlock { height: 5, tx: vec![] };
    assert_eq!(LazyBlock::from_full_block(&block).err(), Some(EncodeError::MissingCoinbase));
    let block = StandardizedBlock { transactions: vec![] };
    assert_eq!(LazyBlock::from_standardized_block(&block).err(), Some(EncodeError::MissingCoinbase));
}

#[test]
fn an_input_without_the_output_that_it_spends_is_refused() {
    let mut block = full_block();
    block.tx[1].vin[0].prevout = None;
    assert_eq!(LazyBlock::from_full_block(&block).err(), Some(EncodeError::MissingPrevout));
    let mut block = full_block();
    block.tx[1].vin[0].txid = None;
    assert_eq!(LazyBlock::from_full_block(&block).err(), Some(EncodeError::MissingPrevout));
    let mut block = full_block();
    block.tx[1].vin[0].vout = None;
    assert_eq!(LazyBlock::from_full_block(&block).err(), Some(EncodeError::MissingPrevout));
    // a missing output is named before an identifier that is no hexadecimal
    let mut block = full_block();
    block.tx[1].txid = "zz".to_string();
    block.tx[1].vin.push(coinbase_input());
    assert_eq!(LazyBlock::from_full_block(&block).err(), Some(EncodeError::MissingPrevout));
}

#[test]
fn a_block_with_an_identifier_that_is_not_hexadecimal_is_refused() {
    let mut block = full_block();
    block.tx[0].txid = "c0c1c2c3c4c5c6".to_string();
    assert_eq!(LazyBlock::from_full_block(&block).err(), Some(EncodeError::InvalidTxid));
    let mut block = full_block();
    block.tx[1].txid = "not hexadecimal at all".to_string();
    assert_eq!(LazyBlock::from_full_block(&block).err(), Some(EncodeError::InvalidTxid));
    let mut block = full_block();
    block.tx[1].vin[0].txid = Some("0xa0a1".to_string());
    assert_eq!(LazyBlock::from_full_block(&block).err(), Some(EncodeError::InvalidTxid));
    // an identifier that is no hexadecimal is named before a value too large
    let mut block = standardized_block();
    block.transactions[1].inputs[0].vout = 65_536;
    block.transactions[1].inputs[0].txid = "0xa0a1".to_string();
    assert_eq!(LazyBlock::from_standardized_block(&block).err(), Some(EncodeError::InvalidTxid));
}

#[test]
fn the_inputs_of_the_coinbase_are_not_looked_at() {
    let mut block = standardized_block();
    block.transactions[0].inputs.push(StandardizedInput {
        txid: "no identifier".to_string(),
        vout: u32::MAX,
        block_height: u64::MAX,
        value: 0,
    });
    let packed = LazyBlock::from_standardized_block(&block).expect("the block can be packed");
    assert_eq!(packed.bytes, expected_bytes());
}

#[test]
fn a_value_too_large_for_its_field_is_refused() {
    let mut block = standardized_block();
    block.transactions[1].inputs[0].vout = 65_536;
    assert_eq!(LazyBlock::from_standardized_block(&block).err(), Some(EncodeError::FieldOverflow));
    let mut block = standardized_block();
    block.transactions[1].inputs[0].block_height = 1 << 32;
    assert_eq!(LazyBlock::from_standardized_block(&block).err(), Some(EncodeError::FieldOverflow));
    let mut block = standardized_block();
    block.transactions[0].outputs = vec![u64::MAX, 1];
    assert_eq!(LazyBlock::from_standardized_block(&block).err(), Some(EncodeError::FieldOverflow));
    let mut block = standardized_block();
    block.transactions[1].outputs = vec![0; 65_536];
    assert_eq!(LazyBlock::from_standardized_block(&block).err(), Some(EncodeError::FieldOverflow));
    // the largest values that fit
    let mut block = standardized_block();
    block.transactions[1].inputs[0].vout = 65_535;
    block.transactions[1].inputs[0].block_height = u32::MAX as u64;
    block.transactions[0].outputs = vec![u64::MAX - 1, 1];
    let packed = LazyBlock::from_standardized_block(&block).expect("the block can be packed");
    assert_eq!(packed.get_coinbase_sats(), u64::MAX);
}

#[test]
fn two_transactions_with_one_prefix_are_refused() {
    let mut block = standardized_block();
    let mut twin = block.transactions[1].clone();
    twin.txid = format!("0x{}{}", &TX_HASH[..16], "cc".repeat(24));
    block.transactions.push(twin);
    assert_eq!(
        LazyBlock::from_standardized_block(&block).err(),
        Some(EncodeError::TxidPrefixCollision)
    );
    // the coinbase counts too
    let mut block = standardized_block();
    block.transactions[1].txid = with_0x(COINBASE_HASH);
    assert_eq!(
        LazyBlock::from_standardized_block(&block).err(),
        Some(EncodeError::TxidPrefixCollision)
    );
    // inputs may name one transaction as often as they like
    let mut block = standardized_block();
    let again = block.transactions[1].inputs[0].clone();
    block.transactions[1].inputs.push(again);
    assert!(LazyBlock::from_standardized_block(&block).is_ok());
}
