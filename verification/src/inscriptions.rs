//! The inscription catalogue, as far as it is computed here: the row that
//! is written for an inscription, and what is made of the rows that are
//! read.
//!
//! The catalogue itself is a table that is kept elsewhere. An inscription is
//! identified by the identifier of the transaction that revealed it, an `i`
//! and an index; the two characters at the end are cut off where the
//! transaction is meant.

use vstd::prelude::*;
use vstd::string::{StrSliceExecFns, StringExecFns};
use std::collections::BTreeMap;
use crate::traversal::TraversalResult;

verus! {

broadcast use {vstd::std_specs::btree::group_btree_axioms, vstd::laws_cmp::group_laws_cmp};

/// A block by height and hash.
#[derive(Debug, Clone)]
pub struct BlockIdentifier {
    /// Also known as the block height.
    pub index: u64,
    pub hash: String,
}

/// What is known of an inscription when it is revealed.
#[derive(Debug, Clone)]
pub struct InscriptionReveal {
    pub inscription_id: String,
    pub inscription_number: u64,
    pub ordinal_number: u64,
    /// Where the inscribed satoshi stands once the revealing transaction
    /// is through: transaction, output and offset.
    pub satpoint_post_inscription: String,
}

/// A row of the catalogue.
#[derive(Debug, Clone, PartialEq, Eq)]
pub struct InscriptionRecord {
    pub inscription_id: String,
    pub block_height: u64,
    pub block_hash: String,
    pub outpoint_to_watch: String,
    pub ordinal_number: u64,
    pub inscription_number: u64,
    pub offset: u64,
}

/// What a listing of the catalogue gives of a row.
#[derive(Debug, Clone)]
pub struct InscriptionRow {
    pub inscription_number: u64,
    pub ordinal_number: u64,
    pub block_height: u64,
    pub inscription_id: String,
}

/// An inscription with the place where its satoshi stands in the output
/// that is watched.
#[derive(Clone, Debug, PartialEq, Eq)]
pub struct WatchedSatpoint {
    pub inscription_id: String,
    pub inscription_number: u64,
    pub ordinal_number: u64,
    pub offset: u64,
}

/// `text` without its last two characters.
pub open spec fn spec_without_last_two(text: Seq<char>) -> Seq<char> {
    text.take(text.len() - 2)
}

/// The satpoint at which the inscription `inscription_id` was revealed: the
/// first satoshi of the first output of its transaction.
pub open spec fn spec_genesis_satpoint(inscription_id: Seq<char>) -> Seq<char> {
    spec_without_last_two(inscription_id) + seq![':', '0']
}

/// The identifier of the transaction that revealed the inscription
/// `inscription_id`, with `0x` before it.
pub open spec fn spec_transaction_hash(inscription_id: Seq<char>) -> Seq<char> {
    seq!['0', 'x'] + spec_without_last_two(inscription_id)
}

/// `text` without its last two characters.
fn without_last_two(text: &str) -> (head: &str)
    requires
        text@.len() >= 2,
    ensures
        head@ == spec_without_last_two(text@),
{
    let len: usize = text.unicode_len();
    text.substring_char(0, len - 2)
}

impl WatchedSatpoint {
    /// The satpoint at which the inscription was revealed: the identifier
    /// without its last two characters, and `:0`.
    pub fn get_genesis_satpoint(&self) -> (satpoint: String)
        requires
            self.inscription_id@.len() >= 2,
        ensures
            satpoint@ == spec_genesis_satpoint(self.inscription_id@),
    {
        let head = without_last_two(self.inscription_id.as_str());
        proof {
            reveal_strlit(":0");
        }
        let satpoint = String::from_str(head).concat(":0");
        assert(satpoint@ =~= spec_genesis_satpoint(self.inscription_id@));
        satpoint
    }
}

/// The identifier of the transaction that revealed the inscription
/// `inscription_id`, with `0x` before it.
pub fn inscription_transaction_hash(inscription_id: &str) -> (hash: String)
    requires
        inscription_id@.len() >= 2,
    ensures
        hash@ == spec_transaction_hash(inscription_id@),
{
    let head = without_last_two(inscription_id);
    proof {
        reveal_strlit("0x");
    }
    let hash = String::from_str("0x").concat(head);
    assert(hash@ =~= spec_transaction_hash(inscription_id@));
    hash
}

/// The row that is written for an inscription that was revealed in the
/// block `block_identifier`. The output that is watched is the satpoint
/// behind the inscription without its last two characters, and the
/// satoshi stands at its start.
pub fn store_new_inscription(
    inscription_data: &InscriptionReveal,
    block_identifier: &BlockIdentifier,
) -> (record: InscriptionRecord)
    requires
        inscription_data.satpoint_post_inscription@.len() >= 2,
    ensures
        record.inscription_id@ == inscription_data.inscription_id@,
        record.outpoint_to_watch@ == spec_without_last_two(
            inscription_data.satpoint_post_inscription@,
        ),
        record.ordinal_number == inscription_data.ordinal_number,
        record.inscription_number == inscription_data.inscription_number,
        record.offset == 0,
        record.block_height == block_identifier.index,
        record.block_hash@ == block_identifier.hash@,
{
    let outpoint = without_last_two(inscription_data.satpoint_post_inscription.as_str());
    InscriptionRecord {
        inscription_id: inscription_data.inscription_id.clone(),
        block_height: block_identifier.index,
        block_hash: block_identifier.hash.clone(),
        outpoint_to_watch: String::from_str(outpoint),
        ordinal_number: inscription_data.ordinal_number,
        inscription_number: inscription_data.inscription_number,
        offset: 0,
    }
}

/// The first of `rows` whose block hash is `block_hash`, where a row is
/// the number of an inscription, the number of its satoshi and the hash of
/// the block that revealed it.
pub open spec fn spec_first_with_block_hash(
    rows: Seq<(u64, u64, String)>,
    block_hash: Seq<char>,
) -> Option<TraversalResult>
    decreases rows.len(),
{
    if rows.len() == 0 {
        None
    } else if rows[0].2@ == block_hash {
        Some(
            TraversalResult {
                inscription_number: rows[0].0,
                ordinal_number: rows[0].1,
                transfers: 0,
            },
        )
    } else {
        spec_first_with_block_hash(rows.drop_first(), block_hash)
    }
}

/// The inscription as the catalogue has it, where it has it for the block
/// with hash `block_hash`. `rows` are the rows that the catalogue holds for
/// the inscription: its number, the number of its satoshi, and the hash of
/// the block that revealed it.
pub fn find_inscription_with_id(rows: &Vec<(u64, u64, String)>, block_hash: &str) -> (found: Option<
    TraversalResult,
>)
    ensures
        found == spec_first_with_block_hash(rows@, block_hash@),
{
    let wanted = String::from_str(block_hash);
    let mut i: usize = 0;
    assert(rows@.skip(0) =~= rows@);
    while i < rows.len()
        invariant
            i <= rows.len(),
            wanted@ == block_hash@,
            spec_first_with_block_hash(rows@, block_hash@) == spec_first_with_block_hash(
                rows@.skip(i as int),
                block_hash@,
            ),
        decreases rows.len() - i,
    {
        let row = &rows[i];
        proof {
            assert(rows@.skip(i as int)[0] == rows@[i as int]);
            assert(rows@.skip(i as int).drop_first() =~= rows@.skip(i + 1));
        }
        if row.2 == wanted {
            return Some(
                TraversalResult { inscription_number: row.0, ordinal_number: row.1, transfers: 0 },
            );
        }
        i = i + 1;
    }
    None
}

/// What a listing by height holds for a row: the hash of the revealing
/// transaction, and the inscription with no transfer counted.
pub open spec fn spec_row_entry(row: InscriptionRow) -> (Seq<char>, TraversalResult) {
    (
        spec_transaction_hash(row.inscription_id@),
        TraversalResult {
            inscription_number: row.inscription_number,
            ordinal_number: row.ordinal_number,
            transfers: 0,
        },
    )
}

/// The entries of the rows that were revealed at `height`, in the order of
/// the rows.
pub open spec fn spec_entries_at(rows: Seq<InscriptionRow>, height: u64) -> Seq<
    (Seq<char>, TraversalResult),
>
    decreases rows.len(),
{
    if rows.len() == 0 {
        Seq::empty()
    } else if rows.last().block_height == height {
        spec_entries_at(rows.drop_last(), height).push(spec_row_entry(rows.last()))
    } else {
        spec_entries_at(rows.drop_last(), height)
    }
}

/// The entries of a list, as mathematics.
pub open spec fn spec_entries(entries: Vec<(String, TraversalResult)>) -> Seq<
    (Seq<char>, TraversalResult),
> {
    entries@.map_values(|entry: (String, TraversalResult)| (entry.0@, entry.1))
}

/// The inscriptions of the catalogue by the height at which each was
/// revealed. Under each height stand the inscriptions of that height in the
/// order of `rows`, each with the hash of the transaction that revealed it;
/// a height without inscription has no entry.
pub fn find_all_inscriptions(rows: &Vec<InscriptionRow>) -> (results: BTreeMap<
    u64,
    Vec<(String, TraversalResult)>,
>)
    requires
        forall|i: int| 0 <= i < rows.len() ==> (#[trigger] rows[i]).inscription_id@.len() >= 2,
    ensures
        forall|height: u64|
            results@.contains_key(height) <==> spec_entries_at(rows@, height).len() > 0,
        forall|height: u64|
            results@.contains_key(height) ==> spec_entries(#[trigger] results@[height])
                == spec_entries_at(rows@, height),
{
    let mut results: BTreeMap<u64, Vec<(String, TraversalResult)>> = BTreeMap::new();
    let mut i: usize = 0;
    assert(rows@.take(0) =~= Seq::<InscriptionRow>::empty());
    while i < rows.len()
        invariant
            i <= rows.len(),
            forall|j: int| 0 <= j < rows.len() ==> (#[trigger] rows[j]).inscription_id@.len() >= 2,
            forall|height: u64|
                results@.contains_key(height) <==> spec_entries_at(
                    rows@.take(i as int),
                    height,
                ).len() > 0,
            forall|height: u64|
                results@.contains_key(height) ==> spec_entries(#[trigger] results@[height])
                    == spec_entries_at(rows@.take(i as int), height),
        decreases rows.len() - i,
    {
        let row = &rows[i];
        let ghost before = results@;
        let ghost seen = rows@.take(i as int);
        let ghost now = rows@.take(i + 1);
        proof {
            assert(now.drop_last() =~= seen);
            assert(now.last() == *row);
        }
        let entry = (
            inscription_transaction_hash(row.inscription_id.as_str()),
            TraversalResult {
                inscription_number: row.inscription_number,
                ordinal_number: row.ordinal_number,
                transfers: 0,
            },
        );
        let mut entries: Vec<(String, TraversalResult)> = match results.remove(&row.block_height) {
            Some(entries) => entries,
            None => Vec::new(),
        };
        assert(spec_entries(entries) =~= spec_entries_at(seen, row.block_height));
        entries.push(entry);
        assert(spec_entries(entries) =~= spec_entries_at(now, row.block_height));
        results.insert(row.block_height, entries);
        proof {
            assert forall|height: u64| results@.contains_key(height) <==> spec_entries_at(
                now,
                height,
            ).len() > 0 by {
                if height != row.block_height {
                    assert(before.contains_key(height) == results@.contains_key(height));
                }
            }
            assert forall|height: u64| results@.contains_key(height) implies spec_entries(
                #[trigger] results@[height],
            ) == spec_entries_at(now, height) by {
                if height != row.block_height {
                    assert(results@[height] == before[height]);
                }
            }
        }
        i = i + 1;
    }
    assert(rows@.take(rows.len() as int) =~= rows@);
    results
}

} // verus!
