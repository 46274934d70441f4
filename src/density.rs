//! The density mapper. A curve is a function of the value, its full scale and
//! the largest count; it normalises the value, shapes it and scales it to a
//! count, which the mapper clamps. A curve family takes a gamma first: the
//! grid and the gamma search call `family(gamma, raw, MAX_RAW, area)`.

use vstd::prelude::*;
use crate::pixels::MAX_RAW;

verus! {

/// `level` cut down to at most `max`.
pub open spec fn clamp_spec(level: u32, max: u32) -> u32 {
    if level <= max {
        level
    } else {
        max
    }
}

/// `r` is what the density mapper gives for `value` when the curve returns
/// `level` for it: the level, clamped to `max_output`.
pub open spec fn is_density<F: Fn(u32, u32, u32) -> u32>(
    curve: F,
    value: u32,
    max_input: u32,
    max_output: u32,
    r: int,
) -> bool {
    exists|level: u32|
        call_ensures(curve, (value, max_input, max_output), level) && r == clamp_spec(
            level,
            max_output,
        )
}

/// `r` is the ink count of a pixel of raw value `raw` in a block of `area`
/// cells, under the curve of `family` at `gamma`.
pub open spec fn is_ink<G: Fn(u32, u32, u32, u32) -> u32>(
    family: G,
    gamma: u32,
    raw: u32,
    area: u32,
    r: int,
) -> bool {
    exists|level: u32|
        call_ensures(family, (gamma, raw, MAX_RAW, area), level) && r == clamp_spec(level, area)
}

/// The curve of `family` can be called with any arguments.
pub open spec fn family_total<G: Fn(u32, u32, u32, u32) -> u32>(family: G) -> bool {
    forall|g: u32, v: u32, a: u32, b: u32| call_requires(family, (g, v, a, b))
}

/// Maps `value`, of which `max_initial_value` is the full scale, to a count in
/// `0..=max_final_value`. The curve does the normalising, shaping and rounding:
/// it is handed the value and both scales, and returns the scaled level, which
/// is then clamped to `max_final_value`.
pub fn map_value_by_distribution<F: Fn(u32, u32, u32) -> u32>(
    value: u32,
    distribution: &F,
    max_initial_value: u32,
    max_final_value: u32,
) -> (r: u32)
    requires
        max_initial_value > 0,
        call_requires(*distribution, (value, max_initial_value, max_final_value)),
    ensures
        r <= max_final_value,
        is_density(*distribution, value, max_initial_value, max_final_value, r as int),
{
    let scaled = distribution(value, max_initial_value, max_final_value);
    assert(call_ensures(*distribution, (value, max_initial_value, max_final_value), scaled));
    let r = if scaled <= max_final_value {
        scaled
    } else {
        max_final_value
    };
    assert(r == clamp_spec(scaled, max_final_value));
    r
}

/// The ink count of one pixel: the density mapper applied to its raw value
/// with the curve of `family` at `gamma`, out of a block of `area` cells.
pub fn pixel_ink<G: Fn(u32, u32, u32, u32) -> u32>(
    family: &G,
    gamma: u32,
    raw: u32,
    area: u32,
) -> (r: u32)
    requires
        family_total(*family),
    ensures
        r <= area,
        is_ink(*family, gamma, raw, area, r as int),
{
    let curve = |v: u32, mi: u32, mo: u32| -> (l: u32)
        ensures
            call_ensures(*family, (gamma, v, mi, mo), l),
        { family(gamma, v, mi, mo) };
    let r = map_value_by_distribution(raw, &curve, MAX_RAW, area);
    proof {
        let level = choose|level: u32|
            call_ensures(curve, (raw, MAX_RAW, area), level) && r == clamp_spec(level, area);
        assert(call_ensures(*family, (gamma, raw, MAX_RAW, area), level));
    }
    r
}

/// The density mapper never leaves `0..=max_output`.
pub proof fn lemma_density_in_range<F: Fn(u32, u32, u32) -> u32>(
    curve: F,
    value: u32,
    max_input: u32,
    max_output: u32,
    r: int,
)
    requires
        is_density(curve, value, max_input, max_output, r),
    ensures
        0 <= r <= max_output,
{
}

/// With a curve that answers each input in one way only, the density mapper
/// does too: equal inputs give equal outputs, whatever was called before.
pub proof fn lemma_density_deterministic<F: Fn(u32, u32, u32) -> u32>(
    curve: F,
    value: u32,
    max_input: u32,
    max_output: u32,
    r1: int,
    r2: int,
)
    requires
        forall|l1: u32, l2: u32|
            call_ensures(curve, (value, max_input, max_output), l1) && call_ensures(
                curve,
                (value, max_input, max_output),
                l2,
            ) ==> l1 == l2,
        is_density(curve, value, max_input, max_output, r1),
        is_density(curve, value, max_input, max_output, r2),
    ensures
        r1 == r2,
{
}

} // verus!
