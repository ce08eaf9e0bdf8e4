//! The emission schedule: how many satoshis each block mints, and the number
//! of the first satoshi of each block.
//!
//! Satoshis are numbered in the order in which they are minted. A block
//! mints its subsidy; the subsidy starts at fifty coins and is halved every
//! 210,000 blocks, until nothing is left of it.

use vstd::prelude::*;
use vstd::arithmetic::div_mod::{lemma_fundamental_div_mod, lemma_mod_bound};
use vstd::arithmetic::power2::{lemma2_to64, pow2};
use vstd::bits::lemma_u64_shr_is_div;

verus! {

/// Blocks between two halvings.
pub const SUBSIDY_HALVING_INTERVAL: u64 = 210_000;

/// What a block of the first epoch mints.
pub const INITIAL_SUBSIDY: u64 = 5_000_000_000;

/// The first epoch whose blocks mint nothing.
pub const FIRST_POST_SUBSIDY_EPOCH: u64 = 33;

/// All the satoshis that are ever minted.
pub const SUPPLY: u64 = 2_099_999_997_690_000;

/// The first height at which nothing is minted.
pub const FIRST_POST_SUBSIDY_HEIGHT: u64 = 6_930_000;

/// What each block of `epoch` mints: the initial subsidy, halved once for
/// every epoch before it.
pub open spec fn spec_epoch_subsidy(epoch: nat) -> nat {
    if epoch < 33 {
        5_000_000_000nat / pow2(epoch)
    } else {
        0
    }
}

/// What the block at `height` mints.
pub open spec fn spec_subsidy(height: nat) -> nat {
    spec_epoch_subsidy(height / 210_000)
}

/// The number of the first satoshi that the block at `height` mints: what
/// all the blocks before it have minted together.
pub open spec fn spec_starting_sat(height: nat) -> nat
    decreases height,
{
    if height == 0 {
        0
    } else {
        spec_starting_sat((height - 1) as nat) + spec_subsidy((height - 1) as nat)
    }
}

/// The height of the block that mints satoshi `sat`.
pub open spec fn spec_sat_height(sat: nat) -> nat
    recommends
        sat < SUPPLY,
{
    choose|height: nat| #[trigger]
        spec_starting_sat(height) <= sat && sat < spec_starting_sat(height + 1)
}

/// No block mints more than the initial subsidy.
pub proof fn lemma_subsidy_bounds(height: nat)
    ensures
        spec_subsidy(height) <= 5_000_000_000,
        height < 6_930_000 ==> spec_subsidy(height) >= 1,
        height >= 6_930_000 ==> spec_subsidy(height) == 0,
{
    let epoch = height / 210_000;
    if epoch < 33 {
        lemma_epoch_subsidy_shift(epoch as u64);
        let e = epoch as u64;
        assert(1 <= 5_000_000_000u64 >> e <= 5_000_000_000u64) by (bit_vector)
            requires
                e < 33,
        ;
    }
}

/// Halving is a shift to the right.
pub proof fn lemma_epoch_subsidy_shift(epoch: u64)
    requires
        epoch < 33,
    ensures
        spec_epoch_subsidy(epoch as nat) == 5_000_000_000u64 >> epoch,
{
    lemma_u64_shr_is_div(5_000_000_000u64, epoch);
}

/// Between two heights with no halving in between, every block mints the
/// same.
pub proof fn lemma_starting_sat_within_epoch(from: nat, to: nat)
    requires
        from <= to,
        to <= (from / 210_000 + 1) * 210_000,
    ensures
        spec_starting_sat(to) == spec_starting_sat(from) + (to - from) * spec_subsidy(from),
    decreases to,
{
    let s = spec_subsidy(from) as int;
    if to > from {
        let before = (to - 1) as nat;
        lemma_starting_sat_within_epoch(from, before);
        assert(before / 210_000 == from / 210_000);
        assert(spec_subsidy(before) == s);
        assert((to - from) * s == (before - from) * s + s) by (nonlinear_arith)
            requires
                to - from == before - from + 1,
        ;
    } else {
        assert((to - from) * s == 0) by (nonlinear_arith)
            requires
                to - from == 0,
        ;
    }
}

/// Once nothing is minted any more, the numbering stands still.
pub proof fn lemma_starting_sat_after_last_subsidy(height: nat)
    requires
        height >= 6_930_000,
    ensures
        spec_starting_sat(height) == spec_starting_sat(6_930_000),
    decreases height,
{
    if height > 6_930_000 {
        lemma_starting_sat_after_last_subsidy((height - 1) as nat);
        lemma_subsidy_bounds((height - 1) as nat);
    }
}

/// The numbering never goes back, and goes on wherever something is minted.
pub proof fn lemma_starting_sat_monotonic(a: nat, b: nat)
    requires
        a <= b,
    ensures
        spec_starting_sat(a) <= spec_starting_sat(b),
        a < b && a < 6_930_000 ==> spec_starting_sat(a) < spec_starting_sat(b),
    decreases b,
{
    if a < b {
        lemma_starting_sat_monotonic(a, (b - 1) as nat);
        lemma_subsidy_bounds((b - 1) as nat);
        if a == b - 1 {
        }
    }
}

/// A satoshi lies in the range of one block only.
pub proof fn lemma_sat_height_unique(sat: nat, height: nat)
    requires
        spec_starting_sat(height) <= sat < spec_starting_sat(height + 1),
    ensures
        spec_sat_height(sat) == height,
{
    let other = spec_sat_height(sat);
    assert(spec_starting_sat(other) <= sat < spec_starting_sat(other + 1));
    if other < height {
        lemma_starting_sat_monotonic(other + 1, height);
    } else if height < other {
        lemma_starting_sat_monotonic(height + 1, other);
    }
}

/// What the blocks before `epoch` have minted together, for the epochs in
/// which something is minted.
pub open spec fn spec_epoch_starting_sat(epoch: nat) -> nat
    decreases epoch,
{
    if epoch == 0 {
        0
    } else {
        spec_epoch_starting_sat((epoch - 1) as nat) + 210_000 * spec_epoch_subsidy(
            (epoch - 1) as nat,
        )
    }
}

/// The first block of an epoch starts where the epochs before it end.
pub proof fn lemma_epoch_starting_sat(epoch: nat)
    ensures
        spec_starting_sat(epoch * 210_000) == spec_epoch_starting_sat(epoch),
        spec_epoch_starting_sat(epoch) <= epoch * 1_050_000_000_000_000,
    decreases epoch,
{
    if epoch > 0 {
        let before = (epoch - 1) as nat;
        lemma_epoch_starting_sat(before);
        lemma_starting_sat_within_epoch(before * 210_000, epoch * 210_000);
        lemma_subsidy_bounds(before * 210_000);
        assert((before * 210_000) / 210_000 == before);
        let s = spec_epoch_subsidy(before);
        assert(210_000 * s <= 1_050_000_000_000_000) by (nonlinear_arith)
            requires
                s <= 5_000_000_000,
        ;
    }
}

/// When the last subsidy is minted, the whole supply is out.
pub proof fn lemma_supply()
    ensures
        spec_starting_sat(6_930_000) == SUPPLY,
        spec_epoch_starting_sat(33) == SUPPLY,
{
    lemma_epoch_starting_sat(33);
    lemma2_to64();
    reveal_with_fuel(spec_epoch_starting_sat, 34);
}

/// No block starts behind the whole supply.
pub proof fn lemma_starting_sat_below_supply(height: nat)
    ensures
        spec_starting_sat(height) <= SUPPLY,
        height < 6_930_000 ==> spec_starting_sat(height) < SUPPLY,
{
    lemma_supply();
    if height < 6_930_000 {
        lemma_starting_sat_monotonic(height, 6_930_000);
    } else {
        lemma_starting_sat_after_last_subsidy(height);
    }
}

/// **The numbering and its inverse.** The satoshi at `offset` in the subsidy
/// of the block at `height` was minted at `height`.
pub proof fn lemma_sat_height_of_subsidy_sat(height: nat, offset: nat)
    requires
        offset < spec_subsidy(height),
    ensures
        spec_sat_height(spec_starting_sat(height) + offset) == height,
        spec_starting_sat(height) + offset < SUPPLY,
{
    lemma_sat_height_unique(spec_starting_sat(height) + offset, height);
    lemma_starting_sat_below_supply(height + 1);
}

/// What the block at `height` mints.
pub fn subsidy(height: u64) -> (sats: u64)
    ensures
        sats == spec_subsidy(height as nat),
{
    let epoch: u64 = height / SUBSIDY_HALVING_INTERVAL;
    if epoch < FIRST_POST_SUBSIDY_EPOCH {
        proof {
            lemma_epoch_subsidy_shift(epoch);
        }
        INITIAL_SUBSIDY >> epoch
    } else {
        0
    }
}

/// The number of the first satoshi that the block at `height` mints.
pub fn starting_sat(height: u64) -> (sat: u64)
    ensures
        sat == spec_starting_sat(height as nat),
        sat <= 34_650_000_000_000_000,
{
    let epoch: u64 = height / SUBSIDY_HALVING_INTERVAL;
    let last: u64 = if epoch < FIRST_POST_SUBSIDY_EPOCH {
        epoch
    } else {
        FIRST_POST_SUBSIDY_EPOCH
    };
    let mut start: u64 = 0;
    let mut e: u64 = 0;
    while e < last
        invariant
            e <= last <= 33,
            start == spec_epoch_starting_sat(e as nat),
            start <= e * 1_050_000_000_000_000,
        decreases last - e,
    {
        proof {
            lemma_epoch_subsidy_shift(e);
            lemma_subsidy_bounds((e * 210_000) as nat);
            assert((e * 210_000) / 210_000 == e);
            lemma_epoch_starting_sat((e + 1) as nat);
        }
        start = start + SUBSIDY_HALVING_INTERVAL * (INITIAL_SUBSIDY >> e);
        e = e + 1;
    }
    proof {
        lemma_epoch_starting_sat(last as nat);
    }
    if epoch < FIRST_POST_SUBSIDY_EPOCH {
        let within: u64 = height - epoch * SUBSIDY_HALVING_INTERVAL;
        proof {
            lemma_epoch_subsidy_shift(epoch);
            lemma_subsidy_bounds(height as nat);
            lemma_starting_sat_within_epoch((epoch * 210_000) as nat, height as nat);
            assert((epoch * 210_000) / 210_000 == epoch);
            assert(within * (5_000_000_000u64 >> epoch) <= 210_000 * 5_000_000_000)
                by (nonlinear_arith)
                requires
                    within <= 210_000,
                    (5_000_000_000u64 >> epoch) <= 5_000_000_000,
            ;
        }
        start + within * (INITIAL_SUBSIDY >> epoch)
    } else {
        proof {
            lemma_starting_sat_after_last_subsidy(height as nat);
        }
        start
    }
}

/// The height of the block that mints satoshi `sat`.
pub fn sat_height(sat: u64) -> (height: u64)
    requires
        sat < SUPPLY,
    ensures
        height == spec_sat_height(sat as nat),
        height < FIRST_POST_SUBSIDY_HEIGHT,
        spec_starting_sat(height as nat) <= sat < spec_starting_sat(height as nat + 1),
{
    let mut start: u64 = 0;
    let mut epoch: u64 = 0;
    let mut next: u64 = SUBSIDY_HALVING_INTERVAL * INITIAL_SUBSIDY;
    proof {
        lemma_supply();
        lemma_epoch_starting_sat(1);
        lemma_epoch_starting_sat(0);
        lemma_epoch_subsidy_shift(0);
        assert(5_000_000_000u64 >> 0u64 == 5_000_000_000u64) by (bit_vector);
    }
    while sat >= next
        invariant
            epoch < 33,
            start == spec_epoch_starting_sat(epoch as nat),
            next == spec_epoch_starting_sat(epoch as nat + 1),
            start <= sat < SUPPLY,
            spec_epoch_starting_sat(33) == SUPPLY,
        decreases 33 - epoch,
    {
        proof {
            // Behind the last epoch with a subsidy stands the whole supply.
            assert(epoch < 32);
            lemma_epoch_subsidy_shift((epoch + 1) as u64);
            lemma_subsidy_bounds(((epoch + 1) * 210_000) as nat);
            lemma_epoch_starting_sat((epoch + 2) as nat);
            let s = spec_epoch_subsidy((epoch + 1) as nat);
            assert(((epoch + 1) * 210_000) / 210_000 == epoch + 1);
            assert(210_000 * s <= 1_050_000_000_000_000) by (nonlinear_arith)
                requires
                    s <= 5_000_000_000,
            ;
        }
        epoch = epoch + 1;
        start = next;
        next = start + SUBSIDY_HALVING_INTERVAL * (INITIAL_SUBSIDY >> epoch);
    }
    let each: u64 = INITIAL_SUBSIDY >> epoch;
    let first: u64 = epoch * SUBSIDY_HALVING_INTERVAL;
    proof {
        lemma_epoch_subsidy_shift(epoch);
        lemma_subsidy_bounds(first as nat);
        lemma_epoch_starting_sat(epoch as nat);
        assert(first / 210_000 == epoch);
        assert(each >= 1);
    }
    let within: u64 = (sat - start) / each;
    proof {
        let d = (sat - start) as int;
        let s = each as int;
        let q = within as int;
        lemma_fundamental_div_mod(d, s);
        lemma_mod_bound(d, s);
        assert(q * s <= d < (q + 1) * s) by (nonlinear_arith)
            requires
                d == s * q + d % s,
                0 <= d % s < s,
        ;
        assert(q < 210_000) by (nonlinear_arith)
            requires
                q * s <= d,
                d < 210_000 * s,
                s >= 1,
        ;
        lemma_starting_sat_within_epoch(first as nat, (first + within) as nat);
        lemma_starting_sat_within_epoch(first as nat, (first + within + 1) as nat);
        lemma_sat_height_unique(sat as nat, (first + within) as nat);
    }
    first + within
}

} // verus!
