use std::collections::HashMap;
use std::hash::BuildHasherDefault;

use dashmap::DashMap;
use fxhash::FxHasher;
use hord_db::block::{LazyBlock, LazyBlockTransaction};
use hord_db::compacted::CompactedBlock;
use hord_db::error::{CorruptedBlockBytes, TraversalError};
use hord_db::hop::{FeeResolution, SatPoint};
use hord_db::local::{
    advance_from_whole_block, retrieve_satoshi_point_using_local_storage,
    step_through_compacted_block,
};
use hord_db::schedule::starting_sat;
use hord_db::traversal::{
    advance_from_block, retrieve_satoshi_point_using_lazy_storage, step_through_block, Advance,
    BlockStep, TraversalResult,
};

type Cache = DashMap<(u32, [u8; 8]), LazyBlockTransaction, BuildHasherDefault<FxHasher>>;

type EagerTx = ([u8; 8], Vec<([u8; 8], u32, u16, u64)>, Vec<u64>);

const COINBASE_1: [u8; 8] = [0x01; 8];
const COINBASE_2: [u8; 8] = [0x02; 8];
const COINBASE_3: [u8; 8] = [0x03; 8];
const TX_A: [u8; 8] = [0xaa; 8];
const TX_B: [u8; 8] = [0xbb; 8];
const TX_C: [u8; 8] = [0xcc; 8];
const HASH_C: &str = "0xcccccccccccccccc";

fn new_cache() -> Cache {
    DashMap::with_hasher(BuildHasherDefault::<FxHasher>::default())
}

/// Three blocks, at the heights `base`, twice `base` and three times `base`.
/// The first is a coinbase alone. In the second, transaction A spends the
/// coinbase of the first and pays a fee of 1000. In the third, transaction
/// B spends the first output of A, and transaction C spends the first output
/// of B and then the coinbase of the second block.
fn chain(base: u32) -> HashMap<u32, ((([u8; 8], u64)), Vec<EagerTx>)> {
    let subsidy: u64 = 5_000_000_000;
    let mut blocks = HashMap::new();
    blocks.insert(base, ((COINBASE_1, subsidy), vec![]));
    blocks.insert(
        2 * base,
        (
            (COINBASE_2, subsidy + 1_000),
            vec![(TX_A, vec![(COINBASE_1, base, 0, subsidy)], vec![4_000_000_000, 999_999_000])],
        ),
    );
    blocks.insert(
        3 * base,
        (
            (COINBASE_3, subsidy),
            vec![
                (TX_B, vec![(TX_A, 2 * base, 0, 4_000_000_000)], vec![1_000, 3_999_999_000]),
                (
                    TX_C,
                    vec![(TX_B, 3 * base, 0, 1_000), (COINBASE_2, 2 * base, 0, subsidy + 1_000)],
                    vec![700, 300, subsidy + 1_000],
                ),
            ],
        ),
    );
    blocks
}

fn eager(height: u32) -> Option<CompactedBlock> {
    chain(10).remove(&height).map(CompactedBlock)
}

fn packed(height: u32) -> Option<LazyBlock> {
    eager(height).map(|block| {
        let mut bytes = Vec::new();
        block.serialize_to_lazy_format(&mut bytes).expect("the block fits the layout");
        LazyBlock::new(bytes)
    })
}

#[test]
fn the_first_satoshi_is_followed_through_three_blocks() {
    // C:0:0 is the first satoshi of B:0, which is the first of A:0, which is
    // the first of the coinbase of the first block.
    let expected =
        TraversalResult { inscription_number: 9, ordinal_number: starting_sat(10), transfers: 4 };
    assert_eq!(
        retrieve_satoshi_point_using_local_storage(
            |height| eager(height).map(Ok),
            30,
            HASH_C,
            9,
            &new_cache()
        ),
        Ok(expected)
    );
    assert_eq!(
        retrieve_satoshi_point_using_lazy_storage(packed, 30, HASH_C, 9, &new_cache()),
        Ok(expected)
    );
}

#[test]
fn blocks_that_are_decoded_whole_say_what_packed_blocks_say() {
    let places = [
        SatPoint { block_height: 30, txid: TX_C, vout: 0, offset: 0 },
        SatPoint { block_height: 30, txid: TX_C, vout: 1, offset: 299 },
        SatPoint { block_height: 30, txid: TX_C, vout: 2, offset: 0 },
        SatPoint { block_height: 30, txid: TX_C, vout: 2, offset: 5_000_000_999 },
        SatPoint { block_height: 30, txid: TX_C, vout: 2, offset: 5_000_001_000 },
        SatPoint { block_height: 30, txid: TX_B, vout: 1, offset: 7 },
        SatPoint { block_height: 30, txid: COINBASE_3, vout: 0, offset: 7 },
        SatPoint { block_height: 30, txid: COINBASE_3, vout: 0, offset: 5_000_000_000 },
        SatPoint { block_height: 20, txid: COINBASE_2, vout: 0, offset: 5_000_000_000 },
        SatPoint { block_height: 20, txid: COINBASE_2, vout: 0, offset: 5_000_000_999 },
        SatPoint { block_height: 20, txid: COINBASE_2, vout: 0, offset: 5_000_001_000 },
        SatPoint { block_height: 20, txid: TX_A, vout: 1, offset: 1 },
        SatPoint { block_height: 20, txid: TX_B, vout: 0, offset: 0 },
        SatPoint { block_height: 10, txid: COINBASE_1, vout: 0, offset: 4_999_999_999 },
    ];
    for place in places.iter() {
        let lazy = packed(place.block_height).expect("in the chain");
        let whole = eager(place.block_height).expect("in the chain");
        assert_eq!(step_through_block(&lazy, place), step_through_compacted_block(&whole, place));
    }
}

#[test]
fn a_satoshi_of_a_fee_is_followed_into_the_transaction_that_paid_it() {
    // The coinbase of the second block holds the subsidy and then the fee
    // of A. The fee is what A takes in behind its outputs: the last 1000
    // satoshis of the coinbase of the first block.
    let whole = eager(20).expect("in the chain");
    assert_eq!(
        whole.resolve_fee_range(5_000_000_000, 5_000_000_000),
        FeeResolution::Found(SatPoint {
            block_height: 10,
            txid: COINBASE_1,
            vout: 0,
            offset: 4_999_999_000,
        })
    );
    let in_fee = SatPoint { block_height: 20, txid: COINBASE_2, vout: 0, offset: 5_000_000_999 };
    assert_eq!(
        step_through_compacted_block(&whole, &in_fee),
        (
            BlockStep::Moved(SatPoint {
                block_height: 10,
                txid: COINBASE_1,
                vout: 0,
                offset: 4_999_999_999,
            }),
            None
        )
    );
    // C:2 is the coinbase of the second block whole; its last satoshi is the
    // last of the coinbase of the first block.
    let cache = new_cache();
    let fetch = |height: u32| eager(height).map(Ok);
    let mut place = SatPoint { block_height: 30, txid: TX_C, vout: 2, offset: 5_000_000_999 };
    let mut steps = Vec::new();
    loop {
        let block = eager(place.block_height).expect("in the chain");
        match step_through_compacted_block(&block, &place).0 {
            BlockStep::Moved(next) => {
                steps.push(next);
                place = next;
            }
            last => {
                assert_eq!(last, BlockStep::Minted(starting_sat(10) + 4_999_999_999));
                break;
            }
        }
    }
    assert_eq!(
        steps,
        vec![
            SatPoint { block_height: 20, txid: COINBASE_2, vout: 0, offset: 5_000_000_999 },
            SatPoint { block_height: 10, txid: COINBASE_1, vout: 0, offset: 4_999_999_999 },
        ]
    );
    assert!(retrieve_satoshi_point_using_local_storage(&fetch, 30, HASH_C, 0, &cache).is_ok());
}

#[test]
fn a_transaction_is_found_in_a_block_that_is_decoded_whole() {
    let whole = eager(30).expect("in the chain");
    let found = whole.find_transaction_with_txid(&TX_C).expect("in the block");
    assert_eq!(found.txid, TX_C);
    assert_eq!(found.outputs, vec![700, 300, 5_000_001_000]);
    assert_eq!(found.inputs.len(), 2);
    assert_eq!(found.inputs[1].txin, COINBASE_2);
    assert_eq!(found.inputs[1].block_height, 20);
    assert_eq!(found.inputs[1].txin_value, 5_000_001_000);
    assert_eq!(whole.find_transaction_with_txid(&COINBASE_3), None);
    assert_eq!(whole.find_transaction_with_txid(&TX_C[..4]), None);
}

#[test]
fn what_goes_wrong_with_a_block_that_is_decoded_whole_ends_the_traversal() {
    let cache = new_cache();
    assert_eq!(
        retrieve_satoshi_point_using_local_storage(
            |height| if height == 20 { None } else { eager(height).map(Ok) },
            30,
            HASH_C,
            9,
            &cache
        ),
        Err(TraversalError::BlockMissing(20))
    );
    let cache = new_cache();
    assert_eq!(
        retrieve_satoshi_point_using_local_storage(
            |height| if height == 10 { Some(Err(CorruptedBlockBytes)) } else { eager(height).map(Ok) },
            30,
            HASH_C,
            9,
            &cache
        ),
        Err(TraversalError::CorruptedBlockBytes(10))
    );
    assert_eq!(
        retrieve_satoshi_point_using_local_storage(
            |height| eager(height).map(Ok),
            30,
            "cc",
            9,
            &new_cache()
        ),
        Err(TraversalError::InvalidTxid)
    );
    // at the heights one, two and three, four hops are one too many
    assert_eq!(
        retrieve_satoshi_point_using_local_storage(
            |height| chain(1).remove(&height).map(CompactedBlock).map(Ok),
            3,
            HASH_C,
            9,
            &new_cache()
        ),
        Err(TraversalError::HopLimitExceeded)
    );
}

#[test]
fn what_the_store_has_decoded_whole_decides_how_the_traversal_goes_on() {
    let place = SatPoint { block_height: 30, txid: TX_C, vout: 2, offset: 5_000_000_999 };
    assert_eq!(
        advance_from_whole_block(None, &place, 1, 2).0,
        Advance::End(Err(TraversalError::BlockMissing(30)))
    );
    assert_eq!(
        advance_from_whole_block(Some(Err(CorruptedBlockBytes)), &place, 1, 2).0,
        Advance::End(Err(TraversalError::CorruptedBlockBytes(30)))
    );
    let (advance, tx) = advance_from_whole_block(eager(30).map(Ok), &place, 1, 2);
    assert_eq!(
        advance,
        Advance::To(SatPoint { block_height: 20, txid: COINBASE_2, vout: 0, offset: 5_000_000_999 })
    );
    assert_eq!(tx.map(|tx| tx.txid), Some(TX_C));
    let minted = SatPoint { block_height: 10, txid: COINBASE_1, vout: 0, offset: 7 };
    assert_eq!(
        advance_from_whole_block(eager(10).map(Ok), &minted, 1, 2),
        (
            Advance::End(Ok(TraversalResult {
                inscription_number: 1,
                ordinal_number: starting_sat(10) + 7,
                transfers: 2,
            })),
            None
        )
    );
    for place in [place, minted] {
        assert_eq!(
            advance_from_whole_block(eager(place.block_height).map(Ok), &place, 1, 2).0,
            advance_from_block(packed(place.block_height), &place, 1, 2).0
        );
    }
}
