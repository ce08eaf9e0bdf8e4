use hord_db::schedule::{
    sat_height, starting_sat, subsidy, FIRST_POST_SUBSIDY_HEIGHT, INITIAL_SUBSIDY,
    SUBSIDY_HALVING_INTERVAL, SUPPLY,
};
use hord_db::traversal::TraversalResult;

#[test]
fn the_subsidy_is_halved_every_210_000_blocks() {
    assert_eq!(subsidy(0), 5_000_000_000);
    assert_eq!(subsidy(209_999), 5_000_000_000);
    assert_eq!(subsidy(210_000), 2_500_000_000);
    assert_eq!(subsidy(420_000), 1_250_000_000);
    assert_eq!(subsidy(630_000), 625_000_000);
    assert_eq!(subsidy(840_000), 312_500_000);
    // halving drops the half satoshi
    assert_eq!(subsidy(10 * SUBSIDY_HALVING_INTERVAL), 4_882_812);
    assert_eq!(subsidy(32 * SUBSIDY_HALVING_INTERVAL), 1);
    assert_eq!(subsidy(FIRST_POST_SUBSIDY_HEIGHT - 1), 1);
    assert_eq!(subsidy(FIRST_POST_SUBSIDY_HEIGHT), 0);
    assert_eq!(subsidy(u64::MAX), 0);
    assert_eq!(INITIAL_SUBSIDY, 50 * 100_000_000);
}

#[test]
fn the_starting_satoshi_is_what_the_blocks_before_have_minted() {
    assert_eq!(starting_sat(0), 0);
    assert_eq!(starting_sat(1), 5_000_000_000);
    assert_eq!(starting_sat(210_000), 1_050_000_000_000_000);
    assert_eq!(starting_sat(210_001), 1_050_000_000_000_000 + 2_500_000_000);
    assert_eq!(starting_sat(420_000), 1_575_000_000_000_000);
    assert_eq!(starting_sat(630_000), 1_837_500_000_000_000);
    assert_eq!(starting_sat(840_000), 1_968_750_000_000_000);
    assert_eq!(starting_sat(10 * 210_000), 2_097_949_218_750_000);
    assert_eq!(starting_sat(11 * 210_000), 2_098_974_609_270_000);
    assert_eq!(starting_sat(32 * 210_000), 2_099_999_997_480_000);
    assert_eq!(starting_sat(FIRST_POST_SUBSIDY_HEIGHT), SUPPLY);
    assert_eq!(starting_sat(u64::MAX), SUPPLY);
    assert_eq!(SUPPLY, 2_099_999_997_690_000);
    let mut sum: u64 = 0;
    for height in 0..1_000u64 {
        assert_eq!(starting_sat(height), sum);
        sum += subsidy(height);
    }
}

#[test]
fn the_height_of_a_satoshi_is_the_height_of_the_block_that_minted_it() {
    assert_eq!(sat_height(0), 0);
    assert_eq!(sat_height(4_999_999_999), 0);
    assert_eq!(sat_height(5_000_000_000), 1);
    assert_eq!(sat_height(1_050_000_000_000_000 - 1), 209_999);
    assert_eq!(sat_height(1_050_000_000_000_000), 210_000);
    assert_eq!(sat_height(1_968_750_000_000_000), 840_000);
    assert_eq!(sat_height(SUPPLY - 1), FIRST_POST_SUBSIDY_HEIGHT - 1);
    for height in [0u64, 1, 17, 209_999, 210_000, 765_000, 840_000, 6_929_999] {
        assert_eq!(sat_height(starting_sat(height)), height);
        assert_eq!(sat_height(starting_sat(height) + subsidy(height) - 1), height);
    }
}

#[test]
fn a_result_names_the_block_and_the_place_of_its_satoshi() {
    let result = TraversalResult {
        inscription_number: 3,
        ordinal_number: 1_968_750_000_000_000 + 42,
        transfers: 9,
    };
    assert_eq!(result.get_ordinal_coinbase_height(), 840_000);
    assert_eq!(result.get_ordinal_coinbase_offset(), 42);
    let first = TraversalResult { inscription_number: 0, ordinal_number: 0, transfers: 0 };
    assert_eq!(first.get_ordinal_coinbase_height(), 0);
    assert_eq!(first.get_ordinal_coinbase_offset(), 0);
    let last = TraversalResult { inscription_number: 0, ordinal_number: SUPPLY - 1, transfers: 0 };
    assert_eq!(last.get_ordinal_coinbase_height(), 6_929_999);
    assert_eq!(last.get_ordinal_coinbase_offset(), 0);
}
