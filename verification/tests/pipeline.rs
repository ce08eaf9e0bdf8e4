use hord_db::pipeline::{
    drains_pool_after, pipeline_limits, BlockSequencer, PipelineLimits, StoredBlockActions,
    CACHE_CLEARING_INTERVAL, FLUSH_INTERVAL, ORDINAL_COMPUTING_HEIGHT,
};

fn quiet(process: Vec<u64>) -> StoredBlockActions {
    StoredBlockActions { process, finished: false, clear_cache: false, flush: false }
}

#[test]
fn the_queues_are_wide_below_the_activation_height_and_short_from_it_on() {
    assert_eq!(ORDINAL_COMPUTING_HEIGHT, 765_000);
    assert_eq!(
        pipeline_limits(0, 6, 16),
        PipelineLimits {
            block_hash_queue: 256,
            block_data_queue: 128,
            compacted_block_queue: 128,
            network_workers: 6,
            processing_workers: 16,
        }
    );
    assert_eq!(pipeline_limits(764_999, 6, 16).compacted_block_queue, 128);
    assert_eq!(
        pipeline_limits(765_000, 6, 16),
        PipelineLimits {
            block_hash_queue: 8,
            block_data_queue: 8,
            compacted_block_queue: 8,
            network_workers: 6,
            processing_workers: 4,
        }
    );
    assert!(!drains_pool_after(764_999));
    assert!(drains_pool_after(765_000));
    assert!(drains_pool_after(765_001));
}

#[test]
fn below_the_activation_height_blocks_are_stored_and_nothing_is_handed_on() {
    let mut sequencer = BlockSequencer::new(100, 10);
    for height in [103u64, 100, 101, 765_000] {
        assert_eq!(sequencer.block_stored(height), quiet(vec![]));
    }
    assert!(!sequencer.is_finished());
}

#[test]
fn blocks_are_handed_on_in_the_order_of_their_heights() {
    let mut sequencer = BlockSequencer::new(800_000, 100);
    // the first block of the run is the first to be handed on
    assert_eq!(sequencer.block_stored(800_002), quiet(vec![]));
    assert_eq!(sequencer.block_stored(800_001), quiet(vec![]));
    assert_eq!(sequencer.block_stored(800_000), quiet(vec![800_000, 800_001, 800_002]));
    assert_eq!(sequencer.block_stored(800_004), quiet(vec![]));
    assert_eq!(sequencer.block_stored(800_006), quiet(vec![]));
    assert_eq!(sequencer.block_stored(800_003), quiet(vec![800_003, 800_004]));
    assert_eq!(sequencer.block_stored(800_005), quiet(vec![800_005, 800_006]));
    assert_eq!(sequencer.block_stored(800_007), quiet(vec![800_007]));
    // a block that was handed on already waits for ever
    assert_eq!(sequencer.block_stored(800_001), quiet(vec![]));
    assert_eq!(sequencer.block_stored(800_008), quiet(vec![800_008]));
}

#[test]
fn a_run_that_starts_lower_hands_on_from_the_first_block_above_the_activation_height() {
    let mut sequencer = BlockSequencer::new(764_999, 100);
    assert_eq!(sequencer.block_stored(764_999), quiet(vec![]));
    assert_eq!(sequencer.block_stored(765_000), quiet(vec![]));
    assert_eq!(sequencer.block_stored(765_001), quiet(vec![765_001]));
    assert_eq!(sequencer.block_stored(765_003), quiet(vec![]));
    assert_eq!(sequencer.block_stored(765_002), quiet(vec![765_002, 765_003]));
}

#[test]
fn the_run_ends_with_the_last_block_and_a_flush() {
    let mut sequencer = BlockSequencer::new(800_000, 3);
    assert_eq!(sequencer.block_stored(800_001), quiet(vec![]));
    assert!(!sequencer.is_finished());
    assert_eq!(sequencer.block_stored(800_002), quiet(vec![]));
    assert_eq!(
        sequencer.block_stored(800_000),
        StoredBlockActions {
            process: vec![800_000, 800_001, 800_002],
            finished: true,
            clear_cache: false,
            flush: true,
        }
    );
    assert!(sequencer.is_finished());
}

#[test]
fn the_cache_is_cleared_every_24_writes_and_the_store_flushed_every_4096() {
    assert_eq!((CACHE_CLEARING_INTERVAL, FLUSH_INTERVAL), (24, 4096));
    let mut sequencer = BlockSequencer::new(0, 1_000_000);
    for write in 1..=10_000u64 {
        let actions = sequencer.block_stored(write - 1);
        // the writes are counted anew after each flush
        let since_flush = (write - 1) % 4096 + 1;
        assert_eq!(actions.clear_cache, since_flush % 24 == 0, "write {}", write);
        assert_eq!(actions.flush, since_flush == 4096, "write {}", write);
        assert!(!actions.finished);
        assert!(actions.process.is_empty());
    }
}
