//! Keeping a coordinate inside the arena.
//!
//! The arena runs from 0 to a whole-number bound on each axis. Agents are
//! clamped to it. Debris that has left it by more than the margin re-enters
//! at the margin inside the opposite edge.
use crate::consts::WRAP_MARGIN;
use crate::scalar::{
    lemma_of_int_is_number, lemma_of_int_order, lemma_of_int_value, lemma_rank_orders_values, Scalar,
};
use vstd::arithmetic::power2::pow2;
use vstd::prelude::*;

verus! {

/// Where to move a coordinate `v` that has left the range from 0 to `max`:
/// to the bound that it has passed. A coordinate inside the range, or one
/// that is not a number, is not moved.
pub open spec fn spec_clamp(v: Scalar, max: i16) -> Option<i16> {
    if v.spec_lt(Scalar::of_int(0)) {
        Some(0i16)
    } else if v.spec_gt(Scalar::of_int(max as int)) {
        Some(max)
    } else {
        None
    }
}

/// Where to move a coordinate `v` that has left the range from 0 to `max`
/// by more than the margin: to the margin inside the opposite edge.
pub open spec fn spec_wrap(v: Scalar, max: i16) -> Option<i16> {
    if v.spec_lt(Scalar::of_int(-WRAP_MARGIN)) {
        Some((max - WRAP_MARGIN) as i16)
    } else if v.spec_gt(Scalar::of_int(max + WRAP_MARGIN)) {
        Some(WRAP_MARGIN)
    } else {
        None
    }
}

/// The coordinate after the move, if there is one.
pub open spec fn moved_to(v: Scalar, target: Option<i16>) -> Scalar {
    match target {
        Some(n) => Scalar::of_int(n as int),
        None => v,
    }
}

/// Whether `v` is a number from `low` to `high`.
pub open spec fn within(v: Scalar, low: int, high: int) -> bool {
    Scalar::of_int(low).spec_le(v) && v.spec_le(Scalar::of_int(high))
}

/// What `within` means: `v` is a number, and the number that it stands
/// for lies from `low` to `high`.
pub proof fn lemma_within_is_a_range_of_numbers(v: Scalar, low: int, high: int)
    requires
        -0x100_0000 < low < 0x100_0000,
        -0x100_0000 < high < 0x100_0000,
    ensures
        within(v, low, high) <==> !v.spec_is_nan() && low * pow2(149) <= v.scaled_value() <= high * pow2(
            149,
        ),
{
    lemma_of_int_is_number(low);
    lemma_of_int_is_number(high);
    lemma_of_int_value(low);
    lemma_of_int_value(high);
    if !v.spec_is_nan() {
        lemma_rank_orders_values(Scalar::of_int(low), v);
        lemma_rank_orders_values(v, Scalar::of_int(high));
    }
}

/// Where to clamp `v` to, if it has left the range from 0 to `max`.
pub fn clamp(v: Scalar, max: i16) -> (target: Option<i16>)
    ensures
        target == spec_clamp(v, max),
{
    if v.lt(Scalar::from_i16(0)) {
        Some(0)
    } else if v.gt(Scalar::from_i16(max)) {
        Some(max)
    } else {
        None
    }
}

/// Where `v` re-enters, if it has left the range from 0 to `max` by more
/// than the margin.
pub fn wrap(v: Scalar, max: i16) -> (target: Option<i16>)
    requires
        WRAP_MARGIN <= max <= i16::MAX - WRAP_MARGIN,
    ensures
        target == spec_wrap(v, max),
{
    if v.lt(Scalar::from_i16(-WRAP_MARGIN)) {
        Some(max - WRAP_MARGIN)
    } else if v.gt(Scalar::from_i16(max + WRAP_MARGIN)) {
        Some(WRAP_MARGIN)
    } else {
        None
    }
}

/// A clamped coordinate lies in the range, whatever number it was.
pub proof fn lemma_clamp_contains(v: Scalar, max: i16)
    requires
        0 <= max,
        !v.spec_is_nan(),
    ensures
        within(moved_to(v, spec_clamp(v, max)), 0, max as int),
        within(v, 0, max as int) ==> moved_to(v, spec_clamp(v, max)) == v,
        0 <= moved_to(v, spec_clamp(v, max)).scaled_value() <= max * pow2(149),
{
    lemma_of_int_is_number(0);
    lemma_of_int_is_number(max as int);
    lemma_of_int_order(0, max as int);
    lemma_within_is_a_range_of_numbers(moved_to(v, spec_clamp(v, max)), 0, max as int);
}

/// A coordinate past the far margin re-enters at the margin inside the
/// near edge, one past the near margin at the margin inside the far edge,
/// and any other stays. Whatever number it was, it then lies within the
/// margin of the range.
pub proof fn lemma_wrap_reenters(v: Scalar, max: i16)
    requires
        WRAP_MARGIN <= max <= i16::MAX - WRAP_MARGIN,
    ensures
        v.spec_gt(Scalar::of_int(max + WRAP_MARGIN)) ==> moved_to(v, spec_wrap(v, max))
            == Scalar::of_int(WRAP_MARGIN as int),
        v.spec_lt(Scalar::of_int(-WRAP_MARGIN)) ==> moved_to(v, spec_wrap(v, max)) == Scalar::of_int(
            max - WRAP_MARGIN,
        ),
        !v.spec_is_nan() ==> within(moved_to(v, spec_wrap(v, max)), -WRAP_MARGIN, max + WRAP_MARGIN),
        within(v, -WRAP_MARGIN, max + WRAP_MARGIN) ==> moved_to(v, spec_wrap(v, max)) == v,
        !v.spec_is_nan() ==> -WRAP_MARGIN * pow2(149) <= moved_to(v, spec_wrap(v, max)).scaled_value() <= (
        max + WRAP_MARGIN) * pow2(149),
{
    lemma_within_is_a_range_of_numbers(moved_to(v, spec_wrap(v, max)), -WRAP_MARGIN as int, max + WRAP_MARGIN);
    let low = -WRAP_MARGIN as int;
    let high = max + WRAP_MARGIN;
    lemma_of_int_is_number(low);
    lemma_of_int_is_number(high);
    lemma_of_int_order(low, high);
    lemma_of_int_order(low, WRAP_MARGIN as int);
    lemma_of_int_order(WRAP_MARGIN as int, high);
    lemma_of_int_order(low, max - WRAP_MARGIN);
    lemma_of_int_order(max - WRAP_MARGIN, high);
}

} // verus!
