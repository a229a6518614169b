//! The rule by which an observed transfer answers a pending obligation.

use crate::amount::Amount;
use crate::decimal::{lemma_truncated_bounds, pow10, truncated, whole, MAX_SCALE};
use vstd::prelude::*;

verus! {

/// How far, in whole units of the asset, an observed amount may fall short
/// of the expected one.
pub const TOLERANCE: u8 = 2;

/// The number of fractional digits on which the two amounts must agree.
pub const MATCH_PLACES: u8 = 3;

/// Whether `observed` answers an obligation of `expected`: it lies in
/// `[expected - TOLERANCE, expected)`, and the two amounts are equal once
/// both are cut off after `MATCH_PLACES` fractional digits.
pub open spec fn is_candidate(expected: int, observed: int) -> bool {
    &&& expected - whole(TOLERANCE as int) <= observed
    &&& observed < expected
    &&& truncated(observed, MATCH_PLACES as int) == truncated(expected, MATCH_PLACES as int)
}

/// Decides whether an observed amount answers an expected one.
pub fn matches_expected(expected: &Amount, observed: &Amount) -> (r: bool)
    ensures
        r == is_candidate(expected@, observed@),
{
    let lower = expected.minus(&Amount::whole(TOLERANCE));
    let in_range = observed.at_least(&lower) && observed.less_than(expected);
    let expected_cut = expected.truncated_to(MATCH_PLACES);
    let observed_cut = observed.truncated_to(MATCH_PLACES);
    let decimals_match = expected_cut.same_value(&observed_cut);
    in_range && decimals_match
}

/// An observed amount that answers an expected one falls short of it by
/// less than two units of the last digit compared; by less than one where
/// the observed amount is not negative.
pub proof fn law_candidate_is_close(expected: int, observed: int)
    requires
        is_candidate(expected, observed),
    ensures
        0 < expected - observed < 2 * pow10(MAX_SCALE - MATCH_PLACES),
        observed >= 0 ==> expected - observed < pow10(MAX_SCALE - MATCH_PLACES),
{
    lemma_truncated_bounds(expected, MATCH_PLACES as int);
    lemma_truncated_bounds(observed, MATCH_PLACES as int);
}

/// An expected amount with no digit after the last one compared is
/// answered by no observed amount that is not negative: such a transfer
/// would have to be smaller and yet have the same leading digits.
pub proof fn law_round_amount_is_never_answered(expected: int, observed: int)
    requires
        truncated(expected, MATCH_PLACES as int) == expected,
        observed >= 0,
    ensures
        !is_candidate(expected, observed),
{
    lemma_truncated_bounds(observed, MATCH_PLACES as int);
}

} // verus!
