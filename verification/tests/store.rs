use std::cell::Cell;
use std::collections::HashMap;

use hord_db::block::LazyBlock;
use hord_db::compacted::CompactedBlock;
use hord_db::local::find_block_at_block_height;
use hord_db::store::{
    block_key, delete_blocks_in_block_range, find_last_block_inserted,
    find_lazy_block_at_block_height, insert_entry_in_blocks, last_insert_key,
    remove_entry_from_blocks, StoreWrite,
};

/// A store in memory that carries out writes in order.
fn apply(store: &mut HashMap<Vec<u8>, Vec<u8>>, writes: Vec<StoreWrite>) {
    for write in writes {
        match write {
            StoreWrite::Put { key, value } => {
                store.insert(key, value);
            }
            StoreWrite::Delete { key } => {
                store.remove(&key);
            }
        }
    }
}

fn get(store: &HashMap<Vec<u8>, Vec<u8>>, height: u32) -> Option<Vec<u8>> {
    store.get(&block_key(height)).cloned()
}

fn last_inserted(store: &HashMap<Vec<u8>, Vec<u8>>) -> u32 {
    find_last_block_inserted(store.get(&last_insert_key()).map(|value| value.as_slice()))
}

fn block(height: u32) -> LazyBlock {
    let mut bytes = Vec::new();
    let coinbase = (height as u64 + 1).to_be_bytes();
    CompactedBlock(((coinbase, 5_000_000_000), vec![]))
        .serialize_to_lazy_format(&mut bytes)
        .expect("the block fits the layout");
    LazyBlock::new(bytes)
}

#[test]
fn keys_are_heights_most_significant_byte_first() {
    assert_eq!(block_key(0), vec![0, 0, 0, 0]);
    assert_eq!(block_key(1), vec![0, 0, 0, 1]);
    assert_eq!(block_key(0x0102_0304), vec![1, 2, 3, 4]);
    assert_eq!(block_key(u32::MAX), vec![0xff; 4]);
    assert_eq!(last_insert_key(), b"metadata::last_insert".to_vec());
}

#[test]
fn a_block_is_stored_under_its_height_and_named_as_the_last() {
    let bytes = block(767_430).bytes;
    assert_eq!(
        insert_entry_in_blocks(767_430, block(767_430)),
        vec![
            StoreWrite::Put { key: vec![0x00, 0x0b, 0xb5, 0xc6], value: bytes.clone() },
            StoreWrite::Put {
                key: b"metadata::last_insert".to_vec(),
                value: vec![0x00, 0x0b, 0xb5, 0xc6],
            },
        ]
    );
    let mut store = HashMap::new();
    assert_eq!(last_inserted(&store), 0);
    apply(&mut store, insert_entry_in_blocks(767_430, block(767_430)));
    assert_eq!(get(&store, 767_430), Some(bytes));
    assert_eq!(get(&store, 767_431), None);
    assert_eq!(last_inserted(&store), 767_430);
}

#[test]
fn storing_a_block_twice_is_storing_it_once() {
    let mut once = HashMap::new();
    apply(&mut once, insert_entry_in_blocks(7, block(7)));
    apply(&mut once, insert_entry_in_blocks(9, block(9)));
    let mut twice = once.clone();
    apply(&mut twice, insert_entry_in_blocks(9, block(9)));
    assert_eq!(once, twice);
    assert_eq!(last_inserted(&twice), 9);
    // the block that is stored last is named as the last, whatever its height
    apply(&mut twice, insert_entry_in_blocks(7, block(7)));
    assert_eq!(last_inserted(&twice), 7);
}

#[test]
fn the_last_inserted_height_is_zero_where_none_is_stored() {
    assert_eq!(find_last_block_inserted(None), 0);
    assert_eq!(find_last_block_inserted(Some(&[])), 0);
    assert_eq!(find_last_block_inserted(Some(&[1, 2, 3])), 0);
    assert_eq!(find_last_block_inserted(Some(&[1, 2, 3, 4])), 0x0102_0304);
    assert_eq!(find_last_block_inserted(Some(&[1, 2, 3, 4, 5])), 0x0102_0304);
}

#[test]
fn a_range_of_blocks_is_deleted_and_the_height_before_it_named_as_the_last() {
    assert_eq!(remove_entry_from_blocks(258), StoreWrite::Delete { key: vec![0, 0, 1, 2] });
    assert_eq!(
        delete_blocks_in_block_range(3, 5),
        vec![
            StoreWrite::Delete { key: vec![0, 0, 0, 3] },
            StoreWrite::Delete { key: vec![0, 0, 0, 4] },
            StoreWrite::Delete { key: vec![0, 0, 0, 5] },
            StoreWrite::Put { key: b"metadata::last_insert".to_vec(), value: vec![0, 0, 0, 2] },
        ]
    );
    // a range that ends before it starts holds no block
    assert_eq!(
        delete_blocks_in_block_range(5, 3),
        vec![StoreWrite::Put { key: b"metadata::last_insert".to_vec(), value: vec![0, 0, 0, 4] }]
    );
    assert_eq!(delete_blocks_in_block_range(u32::MAX, u32::MAX).len(), 2);
    assert_eq!(delete_blocks_in_block_range(1, 1)[1], StoreWrite::Put {
        key: b"metadata::last_insert".to_vec(),
        value: vec![0, 0, 0, 0],
    });
}

#[test]
fn after_a_range_delete_the_blocks_are_gone_and_can_be_stored_again() {
    let mut store = HashMap::new();
    for height in 1..=100u32 {
        apply(&mut store, insert_entry_in_blocks(height, block(height)));
    }
    assert_eq!(last_inserted(&store), 100);
    apply(&mut store, delete_blocks_in_block_range(50, 100));
    assert_eq!(last_inserted(&store), 49);
    for height in 50..=100u32 {
        assert_eq!(get(&store, height), None);
    }
    for height in 1..50u32 {
        assert_eq!(get(&store, height), Some(block(height).bytes));
    }
    apply(&mut store, insert_entry_in_blocks(50, block(50)));
    assert_eq!(last_inserted(&store), 50);
    assert_eq!(get(&store, 50), Some(block(50).bytes));
    assert_eq!(get(&store, 75), None);
}

#[test]
fn a_block_is_looked_for_a_number_of_times_with_a_pause_in_between() {
    let asked = Cell::new(0u32);
    let paused = Cell::new(0u32);
    let never = |_height: u32| {
        asked.set(asked.get() + 1);
        None
    };
    let pause = || paused.set(paused.get() + 1);
    assert!(find_lazy_block_at_block_height(5, 3, &never, &pause).is_none());
    assert_eq!((asked.get(), paused.get()), (3, 2));
    // once at least
    asked.set(0);
    paused.set(0);
    assert!(find_lazy_block_at_block_height(5, 0, &never, &pause).is_none());
    assert_eq!((asked.get(), paused.get()), (1, 0));
    // what comes at the third attempt is found
    asked.set(0);
    paused.set(0);
    let late = |height: u32| {
        asked.set(asked.get() + 1);
        if asked.get() == 3 {
            Some(block(height).bytes)
        } else {
            None
        }
    };
    let found = find_lazy_block_at_block_height(5, 3, &late, &pause).expect("at the third attempt");
    assert_eq!(found.bytes, block(5).bytes);
    assert_eq!(found.tx_len, 0);
    assert_eq!((asked.get(), paused.get()), (3, 2));
    asked.set(0);
    assert!(find_lazy_block_at_block_height(5, 2, &late, &pause).is_none());
}

#[test]
fn what_the_store_holds_is_handed_out_as_it_is() {
    let pause = || ();
    let found = find_lazy_block_at_block_height(1, 3, |_| Some(vec![9]), &pause).expect("found");
    assert_eq!(found.bytes, vec![9]);
    assert!(!found.is_well_formed());
    let found = find_lazy_block_at_block_height(1, 3, |_| Some(vec![0, 1]), &pause).expect("found");
    assert_eq!(found.tx_len, 1);
    assert!(!found.is_well_formed());
}

#[test]
fn a_block_is_looked_for_and_decoded_whole() {
    let pause = || ();
    assert!(find_block_at_block_height(5, 3, |_| None, &pause).is_none());
    let found = find_block_at_block_height(5, 3, |height| Some(block(height).bytes), &pause)
        .expect("found")
        .expect("well formed");
    assert_eq!(found.0, ((6u64.to_be_bytes(), 5_000_000_000), vec![]));
    let corrupted = find_block_at_block_height(5, 3, |_| Some(vec![0, 1, 2]), &pause).expect("found");
    assert!(corrupted.is_err());
}
