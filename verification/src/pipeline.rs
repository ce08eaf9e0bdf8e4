//! The decisions of the ingestion pipeline.
//!
//! Blocks are fetched and packed by pools of workers and come out in any
//! order. Every block is stored as it comes. Above the height at which
//! ordinals are computed, blocks are in addition handed on for
//! augmentation, and that has to happen in the order of their heights: a
//! block that comes early waits in an inbox until its turn has come.
//!
//! The threads, the queues and the store are the caller's. Here is what is
//! decided: how large the queues and the pools are, and, for each block that
//! has been stored, which blocks are handed on and which housekeeping is
//! due.

use vstd::prelude::*;
use std::collections::HashSet;

verus! {

broadcast use vstd::std_specs::hash::group_hash_axioms;

/// The height above which ordinals are computed.
pub const ORDINAL_COMPUTING_HEIGHT: u64 = 765000;

/// The traversal cache is cleared every so many writes.
pub const CACHE_CLEARING_INTERVAL: u64 = 24;

/// The block store is flushed every so many writes.
pub const FLUSH_INTERVAL: u64 = 4096;

/// How large the queues between the stages are, and how many workers each
/// pool has.
#[derive(Debug, Clone, Copy, PartialEq, Eq)]
pub struct PipelineLimits {
    /// Block hashes that may wait for their block to be fetched.
    pub block_hash_queue: usize,
    /// Blocks that may wait to be packed.
    pub block_data_queue: usize,
    /// Packed blocks that may wait to be stored.
    pub compacted_block_queue: usize,
    /// Workers that fetch block hashes, and as many that fetch blocks.
    pub network_workers: usize,
    /// Workers that pack blocks.
    pub processing_workers: usize,
}

/// The limits for a run that starts at `start_block`.
pub open spec fn spec_pipeline_limits(
    start_block: u64,
    network_threads: usize,
    processing_threads: usize,
) -> PipelineLimits {
    if start_block >= ORDINAL_COMPUTING_HEIGHT {
        PipelineLimits {
            block_hash_queue: 8,
            block_data_queue: 8,
            compacted_block_queue: 8,
            network_workers: network_threads,
            processing_workers: 4,
        }
    } else {
        PipelineLimits {
            block_hash_queue: 256,
            block_data_queue: 128,
            compacted_block_queue: 128,
            network_workers: network_threads,
            processing_workers: processing_threads,
        }
    }
}

/// The limits for a run that starts at `start_block`: wide queues and the
/// configured pools below the height at which ordinals are computed, short
/// queues and four workers for packing from that height on.
pub fn pipeline_limits(start_block: u64, network_threads: usize, processing_threads: usize) -> (limits:
    PipelineLimits)
    ensures
        limits == spec_pipeline_limits(start_block, network_threads, processing_threads),
{
    if start_block >= ORDINAL_COMPUTING_HEIGHT {
        PipelineLimits {
            block_hash_queue: 8,
            block_data_queue: 8,
            compacted_block_queue: 8,
            network_workers: network_threads,
            processing_workers: 4,
        }
    } else {
        PipelineLimits {
            block_hash_queue: 256,
            block_data_queue: 128,
            compacted_block_queue: 128,
            network_workers: network_threads,
            processing_workers: processing_threads,
        }
    }
}

/// Whether the pool is waited for after the task for the block at
/// `block_height` has been handed to it, so that blocks come out nearly in
/// order: from the height at which ordinals are computed on.
pub fn drains_pool_after(block_height: u64) -> (drains: bool)
    ensures
        drains == (block_height >= ORDINAL_COMPUTING_HEIGHT),
{
    block_height >= ORDINAL_COMPUTING_HEIGHT
}

/// What is due after a block has been stored.
#[derive(Debug, Clone, PartialEq, Eq)]
pub struct StoredBlockActions {
    /// The heights of the blocks to hand on for augmentation, in this order.
    pub process: Vec<u64>,
    /// All the blocks of the run are stored: the store is flushed and the
    /// stages are told to end.
    pub finished: bool,
    /// The traversal cache is to be cleared.
    pub clear_cache: bool,
    /// The block store is to be flushed.
    pub flush: bool,
}

/// Whether the heights from `start` on that wait in `pending` are `count`:
/// each of the first `count` waits, and the one behind them does not.
pub open spec fn spec_is_run(pending: Set<u64>, start: int, count: int) -> bool {
    &&& 0 <= count
    &&& forall|height: u64| start <= height < start + count ==> pending.contains(height)
    &&& start + count <= u64::MAX ==> !pending.contains((start + count) as u64)
}

/// The heights from `start` on, `count` of them.
pub open spec fn spec_heights_from(start: int, count: int) -> Seq<u64> {
    Seq::new(count as nat, |i: int| (start + i) as u64)
}

/// The final stage of the pipeline, as far as it decides: which block is
/// handed on next, which blocks wait, and how many have been written.
pub struct BlockSequencer {
    cursor: Option<u64>,
    inbox: HashSet<u64>,
    blocks_stored: u64,
    blocks_expected: u64,
    num_writes: u64,
    handed_on: Ghost<Seq<u64>>,
}

impl BlockSequencer {
    /// The height of the block that is handed on next; `None` until a block
    /// above the height at which ordinals are computed has come.
    pub closed spec fn cursor(&self) -> Option<u64> {
        self.cursor
    }

    /// The heights of the blocks that wait for their turn.
    pub closed spec fn inbox(&self) -> Set<u64> {
        self.inbox@
    }

    /// The number of blocks that have been stored.
    pub closed spec fn blocks_stored(&self) -> u64 {
        self.blocks_stored
    }

    /// The number of blocks of the run.
    pub closed spec fn blocks_expected(&self) -> u64 {
        self.blocks_expected
    }

    /// The number of blocks written since the store was last flushed for
    /// their number.
    pub closed spec fn num_writes(&self) -> u64 {
        self.num_writes
    }

    /// The heights of all the blocks that have been handed on since the
    /// start of the run, in the order in which they were handed on.
    pub closed spec fn handed_on(&self) -> Seq<u64> {
        self.handed_on@
    }

    /// Only blocks above the height at which ordinals are computed wait or
    /// are handed on; what has been handed on is the heights before the
    /// cursor, from the first that was handed on, without a gap; and the
    /// count of writes starts anew at each flush.
    pub closed spec fn wf(&self) -> bool {
        &&& self.num_writes < FLUSH_INTERVAL
        &&& forall|height: u64| #[trigger]
            self.inbox@.contains(height) ==> ORDINAL_COMPUTING_HEIGHT < height < u64::MAX
        &&& match self.cursor {
            Some(cursor) => {
                &&& cursor - self.handed_on@.len() > ORDINAL_COMPUTING_HEIGHT
                &&& self.handed_on@ == spec_heights_from(
                    cursor - self.handed_on@.len(),
                    self.handed_on@.len() as int,
                )
            },
            None => self.handed_on@.len() == 0,
        }
    }

    /// **Ordering.** Whatever blocks have come, in whatever order: the
    /// blocks that have been handed on so far are all above the height at
    /// which ordinals are computed, and each is the block one above the
    /// block that was handed on before it.
    pub proof fn lemma_handed_on_in_order(&self)
        requires
            self.wf(),
        ensures
            forall|i: int|
                0 <= i < self.handed_on().len() ==> #[trigger] self.handed_on()[i]
                    > ORDINAL_COMPUTING_HEIGHT,
            forall|i: int|
                0 < i < self.handed_on().len() ==> #[trigger] self.handed_on()[i]
                    == self.handed_on()[i - 1] + 1,
            forall|i: int, j: int|
                0 <= i < j < self.handed_on().len() ==> self.handed_on()[i] < self.handed_on()[j],
    {
    }

    /// The state at the start of a run of `number_of_blocks_to_process`
    /// blocks, the first of them at `start_block`.
    ///
    /// Where the run starts above the height at which ordinals are
    /// computed, its first block is the first to be handed on. Where it
    /// starts lower, that is the first block above that height that comes.
    pub fn new(start_block: u64, number_of_blocks_to_process: u64) -> (sequencer: BlockSequencer)
        ensures
            sequencer.wf(),
            sequencer.cursor() == if start_block > ORDINAL_COMPUTING_HEIGHT {
                Some(start_block)
            } else {
                None
            },
            sequencer.inbox() == Set::<u64>::empty(),
            sequencer.handed_on() == Seq::<u64>::empty(),
            sequencer.blocks_stored() == 0,
            sequencer.blocks_expected() == number_of_blocks_to_process,
            sequencer.num_writes() == 0,
    {
        let cursor: Option<u64> = if start_block > ORDINAL_COMPUTING_HEIGHT {
            Some(start_block)
        } else {
            None
        };
        assert(Seq::<u64>::empty() =~= spec_heights_from(start_block as int, 0));
        BlockSequencer {
            cursor,
            inbox: HashSet::new(),
            blocks_stored: 0,
            blocks_expected: number_of_blocks_to_process,
            num_writes: 0,
            handed_on: Ghost(Seq::empty()),
        }
    }

    /// Whether all the blocks of the run have been stored.
    pub fn is_finished(&self) -> (finished: bool)
        ensures
            finished == (self.blocks_stored() >= self.blocks_expected()),
    {
        self.blocks_stored >= self.blocks_expected
    }

    /// Takes note that the block at `height` has been stored, and says what
    /// is due.
    ///
    /// A block above the height at which ordinals are computed joins the
    /// inbox, and the first such block sets the cursor. Then the blocks that
    /// wait at the cursor and behind it without a gap are handed on, and the
    /// cursor moves behind them. With the last block of the run the store is
    /// flushed and the run ends. Otherwise the cache is cleared after every
    /// twenty-fourth write and the store is flushed after every 4096th, from
    /// which the writes are counted anew.
    pub fn block_stored(&mut self, height: u64) -> (actions: StoredBlockActions)
        requires
            old(self).wf(),
            old(self).blocks_stored() < old(self).blocks_expected(),
            height < u64::MAX,
        ensures
            final(self).wf(),
            final(self).blocks_expected() == old(self).blocks_expected(),
            final(self).blocks_stored() == old(self).blocks_stored() + 1,
            spec_handed_on(
                old(self).cursor(),
                old(self).inbox(),
                height,
                actions.process@,
                final(self).cursor(),
                final(self).inbox(),
            ),
            final(self).handed_on() == old(self).handed_on() + actions.process@,
            actions.finished == (final(self).blocks_stored() == final(self).blocks_expected()),
            actions.finished ==> actions.flush && !actions.clear_cache,
            !actions.finished ==> {
                &&& actions.clear_cache == ((old(self).num_writes() + 1) % 24 == 0)
                &&& actions.flush == (old(self).num_writes() + 1 == FLUSH_INTERVAL)
            },
            final(self).num_writes() == if old(self).num_writes() + 1 == FLUSH_INTERVAL {
                0
            } else {
                old(self).num_writes() + 1
            },
    {
        self.blocks_stored = self.blocks_stored + 1;
        let writes: u64 = self.num_writes + 1;
        let mut process: Vec<u64> = Vec::new();
        // Blocks come out of the pools in any order, and they are handed on in the
        // order of their heights: a block whose turn has not come waits in the inbox.
        if height > ORDINAL_COMPUTING_HEIGHT {
            let start: u64 = match self.cursor {
                Some(cursor) => cursor,
                None => height,
            };
            self.inbox.insert(height);
            let ghost pending = self.inbox@;
            let mut cursor: u64 = start;
            // Hand on what waits at the cursor, and what waits behind it without a gap.
            loop
                invariant
                    start <= cursor,
                    start > ORDINAL_COMPUTING_HEIGHT,
                    pending == old(self).inbox@.insert(height),
                    forall|h: u64| #[trigger]
                        pending.contains(h) ==> ORDINAL_COMPUTING_HEIGHT < h < u64::MAX,
                    forall|h: u64| start <= h < cursor ==> pending.contains(h),
                    self.inbox@ == Set::new(
                        |h: u64| pending.contains(h) && !(start <= h < cursor),
                    ),
                    process@ == spec_heights_from(start as int, cursor - start),
                    self.blocks_stored == old(self).blocks_stored + 1,
                    self.blocks_expected == old(self).blocks_expected,
                    self.num_writes == old(self).num_writes,
                    self.handed_on == old(self).handed_on,
                    self.cursor == old(self).cursor,
                ensures
                    spec_is_run(pending, start as int, cursor - start),
                decreases u64::MAX - cursor,
            {
                let waiting = self.inbox.remove(&cursor);
                if !waiting {
                    assert(!pending.contains(cursor));
                    break ;
                }
                assert(pending.contains(cursor));
                process.push(cursor);
                assert(process@ =~= spec_heights_from(start as int, cursor + 1 - start));
                assert(self.inbox@ =~= Set::new(
                    |h: u64| pending.contains(h) && !(start <= h < cursor + 1),
                ));
                cursor = cursor + 1;
            }
            proof {
                let before = self.handed_on@;
                let first = start - before.len();
                assert(before + process@ =~= spec_heights_from(
                    first,
                    (before + process@).len() as int,
                ));
                self.handed_on = Ghost(before + process@);
            }
            self.cursor = Some(cursor);
        } else {
            assert(process@ =~= Seq::<u64>::empty());
            assert(self.handed_on@ + process@ =~= self.handed_on@);
        }
        if self.blocks_stored == self.blocks_expected {
            self.num_writes = if writes == FLUSH_INTERVAL {
                0
            } else {
                writes
            };
            return StoredBlockActions { process, finished: true, clear_cache: false, flush: true };
        }
        let clear_cache: bool = writes % CACHE_CLEARING_INTERVAL == 0;
        let flush: bool = writes == FLUSH_INTERVAL;
        self.num_writes = if flush {
            0
        } else {
            writes
        };
        StoredBlockActions { process, finished: false, clear_cache, flush }
    }
}

/// What is handed on when the block at `height` has been stored.
///
/// Below and at the height at which ordinals are computed, nothing. Above
/// it, the block joins those that wait; the cursor, where there is none
/// yet, is set to this block; and the blocks that wait at the cursor and
/// behind it without a gap are handed on, in the order of their heights.
pub open spec fn spec_handed_on(
    cursor: Option<u64>,
    inbox: Set<u64>,
    height: u64,
    process: Seq<u64>,
    next_cursor: Option<u64>,
    next_inbox: Set<u64>,
) -> bool {
    if height > ORDINAL_COMPUTING_HEIGHT {
        let start = match cursor {
            Some(cursor) => cursor,
            None => height,
        };
        let pending = inbox.insert(height);
        &&& spec_is_run(pending, start as int, process.len() as int)
        &&& process == spec_heights_from(start as int, process.len() as int)
        &&& next_cursor == Some((start + process.len()) as u64)
        &&& start + process.len() <= u64::MAX
        &&& next_inbox == Set::new(
            |h: u64| pending.contains(h) && !(start <= h < start + process.len()),
        )
    } else {
        &&& process.len() == 0
        &&& next_cursor == cursor
        &&& next_inbox == inbox
    }
}

} // verus!
