//! What is written to the block store, and how what is read from it is
//! understood.
//!
//! The store is a map from keys to values that is kept elsewhere. A packed
//! block is stored under the four bytes of its height, most significant
//! first. One more key holds the height that was inserted last. The
//! functions here say which writes an operation comes to; whoever holds the
//! store carries them out in order.

use vstd::prelude::*;
use crate::block::LazyBlock;
use crate::bytes::{
    lemma_u32_be_round_trip, push_u32_be, read_u32_be, spec_u32_at, spec_u32_be,
};

verus! {

/// One write to the store.
#[derive(Debug, Clone, PartialEq, Eq)]
pub enum StoreWrite {
    /// Put `value` under `key`, in place of what stood there.
    Put { key: Vec<u8>, value: Vec<u8> },
    /// Take away what stands under `key`.
    Delete { key: Vec<u8> },
}

/// One write to the store, as mathematics.
pub enum StoreWriteView {
    Put { key: Seq<u8>, value: Seq<u8> },
    Delete { key: Seq<u8> },
}

impl View for StoreWrite {
    type V = StoreWriteView;

    open spec fn view(&self) -> StoreWriteView {
        match *self {
            StoreWrite::Put { key, value } => StoreWriteView::Put { key: key@, value: value@ },
            StoreWrite::Delete { key } => StoreWriteView::Delete { key: key@ },
        }
    }
}

/// The writes of a list, as mathematics.
pub open spec fn spec_writes(writes: Seq<StoreWrite>) -> Seq<StoreWriteView> {
    writes.map_values(|write: StoreWrite| write@)
}

/// The key `metadata::last_insert`.
pub open spec fn spec_last_insert_key() -> Seq<u8> {
    seq![
        0x6du8, 0x65u8, 0x74u8, 0x61u8, 0x64u8, 0x61u8, 0x74u8, 0x61u8, 0x3au8, 0x3au8, 0x6cu8,
        0x61u8, 0x73u8, 0x74u8, 0x5fu8, 0x69u8, 0x6eu8, 0x73u8, 0x65u8, 0x72u8, 0x74u8,
    ]
}

/// The key of the block at `height`.
pub open spec fn spec_block_key(height: u32) -> Seq<u8> {
    spec_u32_be(height)
}

/// The store after one write.
pub open spec fn spec_apply_write(store: Map<Seq<u8>, Seq<u8>>, write: StoreWriteView) -> Map<
    Seq<u8>,
    Seq<u8>,
> {
    match write {
        StoreWriteView::Put { key, value } => store.insert(key, value),
        StoreWriteView::Delete { key } => store.remove(key),
    }
}

/// The store after some writes, carried out in order.
pub open spec fn spec_apply(store: Map<Seq<u8>, Seq<u8>>, writes: Seq<StoreWriteView>) -> Map<
    Seq<u8>,
    Seq<u8>,
>
    decreases writes.len(),
{
    if writes.len() == 0 {
        store
    } else {
        spec_apply_write(spec_apply(store, writes.drop_last()), writes.last())
    }
}

/// The packed block that the store holds for `height`, if it holds one.
pub open spec fn spec_stored_block(store: Map<Seq<u8>, Seq<u8>>, height: u32) -> Option<Seq<u8>> {
    if store.contains_key(spec_block_key(height)) {
        Some(store[spec_block_key(height)])
    } else {
        None
    }
}

/// The height that a value of the key `metadata::last_insert` stands for:
/// the number that its first four bytes spell; zero where there is no value,
/// or one of fewer bytes.
pub open spec fn spec_decode_last_insert(value: Option<Seq<u8>>) -> u32 {
    match value {
        Some(bytes) => if bytes.len() >= 4 {
            spec_u32_at(bytes, 0)
        } else {
            0
        },
        None => 0,
    }
}

/// The height that was inserted last, by what the store holds.
pub open spec fn spec_last_inserted(store: Map<Seq<u8>, Seq<u8>>) -> u32 {
    spec_decode_last_insert(
        if store.contains_key(spec_last_insert_key()) {
            Some(store[spec_last_insert_key()])
        } else {
            None
        },
    )
}

/// The writes that store a packed block: the block under its height, and
/// the height as the one inserted last.
pub open spec fn spec_insert_writes(height: u32, bytes: Seq<u8>) -> Seq<StoreWriteView> {
    seq![
        StoreWriteView::Put { key: spec_block_key(height), value: bytes },
        StoreWriteView::Put { key: spec_last_insert_key(), value: spec_block_key(height) },
    ]
}

/// The writes that take away the blocks of `count` heights from `start` on.
pub open spec fn spec_delete_writes(start: u32, count: nat) -> Seq<StoreWriteView> {
    Seq::new(count, |i: int| StoreWriteView::Delete { key: spec_block_key((start + i) as u32) })
}

/// The number of heights from `start_block` to `end_block`, both counted.
pub open spec fn spec_range_len(start_block: u32, end_block: u32) -> nat {
    if start_block <= end_block {
        (end_block - start_block + 1) as nat
    } else {
        0
    }
}

/// The writes that take away the blocks from `start_block` to `end_block`
/// and name the height before `start_block` as the one inserted last.
pub open spec fn spec_delete_range_writes(start_block: u32, end_block: u32) -> Seq<StoreWriteView> {
    spec_delete_writes(start_block, spec_range_len(start_block, end_block)).push(
        StoreWriteView::Put {
            key: spec_last_insert_key(),
            value: spec_block_key((start_block - 1) as u32),
        },
    )
}

/// The key `metadata::last_insert`.
pub fn last_insert_key() -> (key: Vec<u8>)
    ensures
        key@ == spec_last_insert_key(),
{
    let key: Vec<u8> = vec![
        0x6du8, 0x65u8, 0x74u8, 0x61u8, 0x64u8, 0x61u8, 0x74u8, 0x61u8, 0x3au8, 0x3au8, 0x6cu8,
        0x61u8, 0x73u8, 0x74u8, 0x5fu8, 0x69u8, 0x6eu8, 0x73u8, 0x65u8, 0x72u8, 0x74u8,
    ];
    assert(key@ =~= spec_last_insert_key());
    key
}

/// The key of the block at `height`.
pub fn block_key(height: u32) -> (key: Vec<u8>)
    ensures
        key@ == spec_block_key(height),
{
    let mut key: Vec<u8> = Vec::with_capacity(4);
    push_u32_be(&mut key, height);
    assert(key@ =~= spec_block_key(height));
    key
}

/// The writes that store `lazy_block` as the block at `block_height`.
pub fn insert_entry_in_blocks(block_height: u32, lazy_block: LazyBlock) -> (writes: Vec<StoreWrite>)
    ensures
        spec_writes(writes@) == spec_insert_writes(block_height, lazy_block.bytes@),
{
    let mut writes: Vec<StoreWrite> = Vec::with_capacity(2);
    writes.push(StoreWrite::Put { key: block_key(block_height), value: lazy_block.bytes });
    writes.push(StoreWrite::Put { key: last_insert_key(), value: block_key(block_height) });
    assert(spec_writes(writes@) =~= spec_insert_writes(block_height, lazy_block.bytes@));
    writes
}

/// The height that was inserted last, from what the store holds under the
/// key `metadata::last_insert`.
pub fn find_last_block_inserted(stored: Option<&[u8]>) -> (height: u32)
    ensures
        height == spec_decode_last_insert(
            match stored {
                Some(bytes) => Some(bytes@),
                None => None,
            },
        ),
{
    match stored {
        Some(bytes) => {
            if bytes.len() >= 4 {
                read_u32_be(bytes, 0)
            } else {
                0
            }
        },
        None => 0,
    }
}

/// The write that takes away the block at `block_height`.
pub fn remove_entry_from_blocks(block_height: u32) -> (write: StoreWrite)
    ensures
        write@ == (StoreWriteView::Delete { key: spec_block_key(block_height) }),
{
    StoreWrite::Delete { key: block_key(block_height) }
}

/// The writes that take away the blocks from `start_block` to `end_block`,
/// both counted, and name the height before `start_block` as the one
/// inserted last.
pub fn delete_blocks_in_block_range(start_block: u32, end_block: u32) -> (writes: Vec<StoreWrite>)
    requires
        start_block >= 1,
    ensures
        spec_writes(writes@) == spec_delete_range_writes(start_block, end_block),
{
    let mut writes: Vec<StoreWrite> = Vec::new();
    if start_block <= end_block {
        let mut block_height: u32 = start_block;
        assert(spec_writes(writes@) =~= spec_delete_writes(start_block, 0));
        loop
            invariant_except_break
                spec_writes(writes@) == spec_delete_writes(
                    start_block,
                    (block_height - start_block) as nat,
                ),
            invariant
                start_block <= block_height <= end_block,
            ensures
                spec_writes(writes@) == spec_delete_writes(
                    start_block,
                    spec_range_len(start_block, end_block),
                ),
            decreases end_block - block_height,
        {
            let ghost before = writes@;
            writes.push(remove_entry_from_blocks(block_height));
            proof {
                let after = spec_delete_writes(
                    start_block,
                    (block_height - start_block + 1) as nat,
                );
                assert(spec_writes(before).len() == before.len());
                assert(before.len() == block_height - start_block);
                assert(after.len() == writes@.len());
                assert forall|i: int| 0 <= i < writes@.len() implies spec_writes(writes@)[i]
                    == after[i] by {
                    if i < before.len() {
                        assert(spec_writes(before)[i] == before[i]@);
                        assert(writes@[i] == before[i]);
                        assert(spec_delete_writes(
                            start_block,
                            (block_height - start_block) as nat,
                        )[i] == after[i]);
                    } else {
                        assert(writes@[i]@ == StoreWriteView::Delete {
                            key: spec_block_key(block_height),
                        });
                    }
                }
                assert(spec_writes(writes@) =~= after);
            }
            if block_height == end_block {
                break ;
            }
            block_height = block_height + 1;
        }
    } else {
        assert(spec_writes(writes@) =~= spec_delete_writes(start_block, 0));
    }
    writes.push(StoreWrite::Put { key: last_insert_key(), value: block_key(start_block - 1) });
    assert(spec_writes(writes@) =~= spec_delete_range_writes(start_block, end_block));
    writes
}

/// Looks for the block at `block_height`, up to `attempts` times and once
/// at least, with a pause between two attempts.
///
/// `get` reads what the store holds for a height, and `pause` waits. What is
/// found is what one of the attempts gave; nothing is found where the last
/// attempt gave nothing.
pub fn find_lazy_block_at_block_height<G: Fn(u32) -> Option<Vec<u8>>, P: Fn() -> ()>(
    block_height: u32,
    attempts: u8,
    get: G,
    pause: P,
) -> (found: Option<LazyBlock>)
    requires
        call_requires(get, (block_height,)),
        call_requires(pause, ()),
    ensures
        found matches Some(lazy_block) ==> call_ensures(
            get,
            (block_height,),
            Some(lazy_block.bytes),
        ),
        found is None ==> call_ensures(get, (block_height,), None::<Vec<u8>>),
{
    let mut attempt: u8 = 1;
    loop
        invariant
            1 <= attempt,
            call_requires(get, (block_height,)),
            call_requires(pause, ()),
        decreases u8::MAX - attempt,
    {
        match get(block_height) {
            Some(bytes) => {
                let lazy_block = if bytes.len() >= 2 {
                    LazyBlock::new(bytes)
                } else {
                    LazyBlock { bytes, tx_len: 0 }
                };
                return Some(lazy_block);
            },
            None => {
                if attempt >= attempts {
                    return None;
                }
                attempt = attempt + 1;
                pause();
            },
        }
    }
}

// ---------------------------------------------------------------------------
// What the writes do to a store
// ---------------------------------------------------------------------------
/// Different heights have different keys, and no height has the key
/// `metadata::last_insert`.
pub proof fn lemma_keys_distinct(a: u32, b: u32)
    ensures
        spec_block_key(a) == spec_block_key(b) ==> a == b,
        spec_block_key(a) != spec_last_insert_key(),
{
    lemma_u32_be_round_trip(a);
    lemma_u32_be_round_trip(b);
    assert(spec_block_key(a).len() == 4);
    assert(spec_last_insert_key().len() == 21);
}

/// What is read back from a height that was written.
pub proof fn lemma_decode_written_height(height: u32)
    ensures
        spec_decode_last_insert(Some(spec_block_key(height))) == height,
{
    lemma_u32_be_round_trip(height);
    assert(spec_block_key(height).subrange(0, 4) =~= spec_block_key(height));
}

/// **Put.** After a block was stored, the store holds it under its height,
/// that height is the one inserted last, and the other blocks are as they
/// were.
pub proof fn lemma_insert_entry(store: Map<Seq<u8>, Seq<u8>>, height: u32, bytes: Seq<u8>)
    ensures
        spec_stored_block(spec_apply(store, spec_insert_writes(height, bytes)), height) == Some(
            bytes,
        ),
        spec_last_inserted(spec_apply(store, spec_insert_writes(height, bytes))) == height,
        forall|other: u32|
            other != height ==> #[trigger] spec_stored_block(
                spec_apply(store, spec_insert_writes(height, bytes)),
                other,
            ) == spec_stored_block(store, other),
{
    let writes = spec_insert_writes(height, bytes);
    let after = spec_apply(store, writes);
    lemma_apply_insert_writes(store, height, bytes);
    lemma_decode_written_height(height);
    lemma_keys_distinct(height, height);
    assert forall|other: u32| other != height implies #[trigger] spec_stored_block(after, other)
        == spec_stored_block(store, other) by {
        lemma_keys_distinct(other, height);
    }
}

/// The store after the two writes that store a block.
pub proof fn lemma_apply_insert_writes(store: Map<Seq<u8>, Seq<u8>>, height: u32, bytes: Seq<u8>)
    ensures
        spec_apply(store, spec_insert_writes(height, bytes)) == store.insert(
            spec_block_key(height),
            bytes,
        ).insert(spec_last_insert_key(), spec_block_key(height)),
{
    let writes = spec_insert_writes(height, bytes);
    assert(writes.drop_last() =~= seq![
        StoreWriteView::Put { key: spec_block_key(height), value: bytes },
    ]);
    assert(writes.drop_last().drop_last() =~= Seq::<StoreWriteView>::empty());
    reveal_with_fuel(spec_apply, 3);
}

/// **Idempotent put.** Storing a block twice leaves the store as storing
/// it once does.
pub proof fn lemma_insert_entry_idempotent(
    store: Map<Seq<u8>, Seq<u8>>,
    height: u32,
    bytes: Seq<u8>,
)
    ensures
        spec_apply(
            spec_apply(store, spec_insert_writes(height, bytes)),
            spec_insert_writes(height, bytes),
        ) == spec_apply(store, spec_insert_writes(height, bytes)),
{
    let once = spec_apply(store, spec_insert_writes(height, bytes));
    lemma_apply_insert_writes(store, height, bytes);
    lemma_apply_insert_writes(once, height, bytes);
    lemma_keys_distinct(height, height);
    assert(spec_apply(once, spec_insert_writes(height, bytes)) =~= once);
}

/// The store after the blocks of `count` heights from `start` on were taken
/// away: it holds what it held, but for those blocks.
pub proof fn lemma_apply_delete_writes(store: Map<Seq<u8>, Seq<u8>>, start: u32, count: nat)
    requires
        start + count <= u32::MAX + 1,
    ensures
        spec_apply(store, spec_delete_writes(start, count)) == store.remove_keys(
            Set::new(
                |key: Seq<u8>|
                    exists|height: u32|
                        start <= height < start + count && key == #[trigger] spec_block_key(height),
            ),
        ),
    decreases count,
{
    let writes = spec_delete_writes(start, count);
    let gone = Set::new(
        |key: Seq<u8>|
            exists|height: u32|
                start <= height < start + count && key == #[trigger] spec_block_key(height),
    );
    if count == 0 {
        assert(store.remove_keys(gone) =~= store);
    } else {
        let before = (count - 1) as nat;
        let gone_before = Set::new(
            |key: Seq<u8>|
                exists|height: u32|
                    start <= height < start + before && key == #[trigger] spec_block_key(height),
        );
        lemma_apply_delete_writes(store, start, before);
        assert(writes.drop_last() =~= spec_delete_writes(start, before));
        let last = (start + before) as u32;
        assert(writes.last() == StoreWriteView::Delete { key: spec_block_key(last) });
        assert forall|key: Seq<u8>| gone.contains(key) <==> gone_before.contains(key) || key
            == spec_block_key(last) by {
            if gone.contains(key) {
                let height = choose|height: u32|
                    start <= height < start + count && key == #[trigger] spec_block_key(height);
                if height != last {
                    assert(start <= height < start + before);
                }
            }
            if gone_before.contains(key) {
                let height = choose|height: u32|
                    start <= height < start + before && key == #[trigger] spec_block_key(height);
                assert(start <= height < start + count);
            }
            if key == spec_block_key(last) {
                assert(start <= last < start + count);
            }
        }
        assert(store.remove_keys(gone_before).remove(spec_block_key(last)) =~= store.remove_keys(
            gone,
        ));
    }
}

/// **Range delete.** After the blocks from `start_block` to `end_block`
/// were deleted, the store holds none of them, the height before
/// `start_block` is the one inserted last, and the other blocks are as they
/// were.
pub proof fn lemma_delete_blocks_in_block_range(
    store: Map<Seq<u8>, Seq<u8>>,
    start_block: u32,
    end_block: u32,
)
    requires
        start_block >= 1,
    ensures
        spec_last_inserted(spec_apply(store, spec_delete_range_writes(start_block, end_block)))
            == start_block - 1,
        forall|height: u32|
            start_block <= height <= end_block ==> #[trigger] spec_stored_block(
                spec_apply(store, spec_delete_range_writes(start_block, end_block)),
                height,
            ) is None,
        forall|height: u32|
            !(start_block <= height <= end_block) ==> #[trigger] spec_stored_block(
                spec_apply(store, spec_delete_range_writes(start_block, end_block)),
                height,
            ) == spec_stored_block(store, height),
{
    let count = spec_range_len(start_block, end_block);
    let deletes = spec_delete_writes(start_block, count);
    let writes = spec_delete_range_writes(start_block, end_block);
    let after = spec_apply(store, writes);
    let gone = Set::new(
        |key: Seq<u8>|
            exists|height: u32|
                start_block <= height < start_block + count && key == #[trigger] spec_block_key(
                    height,
                ),
    );
    lemma_apply_delete_writes(store, start_block, count);
    assert(writes.drop_last() =~= deletes);
    assert(after == store.remove_keys(gone).insert(
        spec_last_insert_key(),
        spec_block_key((start_block - 1) as u32),
    ));
    lemma_decode_written_height((start_block - 1) as u32);
    assert forall|height: u32| start_block <= height <= end_block implies #[trigger] spec_stored_block(
        after,
        height,
    ) is None by {
        lemma_keys_distinct(height, height);
        assert(gone.contains(spec_block_key(height)));
    }
    assert forall|height: u32| !(start_block <= height <= end_block) implies #[trigger] spec_stored_block(
        after,
        height,
    ) == spec_stored_block(store, height) by {
        lemma_keys_distinct(height, height);
        if gone.contains(spec_block_key(height)) {
            let other = choose|other: u32|
                start_block <= other < start_block + count && spec_block_key(height)
                    == #[trigger] spec_block_key(other);
            lemma_keys_distinct(height, other);
        }
    }
}

} // verus!
