use hord_db::inscriptions::{
    find_all_inscriptions, find_inscription_with_id, inscription_transaction_hash,
    store_new_inscription, BlockIdentifier, InscriptionRecord, InscriptionReveal, InscriptionRow,
    WatchedSatpoint,
};
use hord_db::traversal::TraversalResult;

const TXID: &str = "6fb976ab49dcec017f1e201e84395983204ae1a7c2abf7ced0a85d692e442799";

fn inscription_id(index: u32) -> String {
    format!("{}i{}", TXID, index)
}

fn row(inscription_number: u64, block_height: u64, txid: &str) -> InscriptionRow {
    InscriptionRow {
        inscription_number,
        ordinal_number: 1_000 + inscription_number,
        block_height,
        inscription_id: format!("{}i0", txid),
    }
}

fn traversal(inscription_number: u64) -> TraversalResult {
    TraversalResult { inscription_number, ordinal_number: 1_000 + inscription_number, transfers: 0 }
}

#[test]
fn the_genesis_satpoint_is_the_first_satoshi_of_the_revealing_transaction() {
    let watched = WatchedSatpoint {
        inscription_id: inscription_id(0),
        inscription_number: 1,
        ordinal_number: 2,
        offset: 3,
    };
    assert_eq!(watched.get_genesis_satpoint(), format!("{}:0", TXID));
    let short = WatchedSatpoint {
        inscription_id: "i0".to_string(),
        inscription_number: 1,
        ordinal_number: 2,
        offset: 3,
    };
    assert_eq!(short.get_genesis_satpoint(), ":0");
    // two characters are cut off, whatever they take in bytes
    let accented = WatchedSatpoint {
        inscription_id: "ab\u{e9}\u{e9}".to_string(),
        inscription_number: 1,
        ordinal_number: 2,
        offset: 3,
    };
    assert_eq!(accented.get_genesis_satpoint(), "ab:0");
}

#[test]
fn the_transaction_of_an_inscription_is_its_identifier_without_the_index() {
    assert_eq!(inscription_transaction_hash(&inscription_id(0)), format!("0x{}", TXID));
    assert_eq!(inscription_transaction_hash("abi0"), "0xab");
    assert_eq!(inscription_transaction_hash("i0"), "0x");
}

#[test]
fn a_new_inscription_is_watched_at_the_output_behind_its_reveal() {
    let reveal = InscriptionReveal {
        inscription_id: inscription_id(0),
        inscription_number: 7,
        ordinal_number: 1_968_750_000_000_042,
        satpoint_post_inscription: format!("{}:1:0", TXID),
    };
    let block = BlockIdentifier { index: 840_000, hash: "0xb10c".to_string() };
    assert_eq!(
        store_new_inscription(&reveal, &block),
        InscriptionRecord {
            inscription_id: inscription_id(0),
            block_height: 840_000,
            block_hash: "0xb10c".to_string(),
            outpoint_to_watch: format!("{}:1", TXID),
            ordinal_number: 1_968_750_000_000_042,
            inscription_number: 7,
            offset: 0,
        }
    );
}

#[test]
fn an_inscription_is_found_for_the_block_that_revealed_it() {
    let rows = vec![
        (5u64, 50u64, "0xaaaa".to_string()),
        (6, 60, "0xbbbb".to_string()),
        (7, 70, "0xbbbb".to_string()),
    ];
    assert_eq!(
        find_inscription_with_id(&rows, "0xaaaa"),
        Some(TraversalResult { inscription_number: 5, ordinal_number: 50, transfers: 0 })
    );
    assert_eq!(
        find_inscription_with_id(&rows, "0xbbbb"),
        Some(TraversalResult { inscription_number: 6, ordinal_number: 60, transfers: 0 })
    );
    assert_eq!(find_inscription_with_id(&rows, "0xcccc"), None);
    assert_eq!(find_inscription_with_id(&rows, "0xaaa"), None);
    assert_eq!(find_inscription_with_id(&vec![], "0xaaaa"), None);
}

#[test]
fn the_inscriptions_are_listed_by_height_in_the_order_of_the_rows() {
    let rows = vec![
        row(1, 800_000, "aa"),
        row(2, 767_430, "bb"),
        row(3, 800_000, "cc"),
        row(4, 900_000, "dd"),
        row(5, 800_000, "ee"),
    ];
    let listed = find_all_inscriptions(&rows);
    assert_eq!(listed.keys().copied().collect::<Vec<u64>>(), vec![767_430, 800_000, 900_000]);
    assert_eq!(listed[&767_430], vec![("0xbb".to_string(), traversal(2))]);
    assert_eq!(
        listed[&800_000],
        vec![
            ("0xaa".to_string(), traversal(1)),
            ("0xcc".to_string(), traversal(3)),
            ("0xee".to_string(), traversal(5)),
        ]
    );
    assert_eq!(listed[&900_000], vec![("0xdd".to_string(), traversal(4))]);
    assert!(find_all_inscriptions(&vec![]).is_empty());
}
