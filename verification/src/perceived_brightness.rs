//! Perceived brightness of a color, and the color whose three channels are
//! each as bright as the blue channel at full intensity.
//!
//! Brightness is the square root of a weighted sum of squares. Every
//! quantity here is kept squared and in integers: samples run from 0 to 255,
//! weights are in thousandths, so a squared brightness is counted in units
//! of `1 / (1000 * 255 * 255)`.

use vstd::prelude::*;
use crate::quantize::{
    largest_sample,
    largest_within,
    lemma_largest_within_found,
    lemma_largest_within_is_largest,
    power,
    within_budget,
};

verus! {

/// Luminance weight of the red channel, in thousandths.
pub const R_COEFFICIENT: u32 = 299;

/// Luminance weight of the green channel, in thousandths.
pub const G_COEFFICIENT: u32 = 587;

/// Luminance weight of the blue channel, in thousandths.
pub const B_COEFFICIENT: u32 = 114;

/// The sample of a channel at full intensity.
pub const FULL_INTENSITY: u8 = 255;

/// A squared brightness of one: that of white.
pub const UNIT_BRIGHTNESS_SQUARED: u32 = 65_025_000;

/// The squared perceived brightness of the color `(r, g, b)`.
pub open spec fn brightness_squared(r: nat, g: nat, b: nat) -> nat {
    R_COEFFICIENT as nat * (r * r) + G_COEFFICIENT as nat * (g * g) + B_COEFFICIENT as nat * (b * b)
}

/// The squared brightness that every channel is dimmed to: that of blue
/// alone at full intensity.
pub open spec fn target_brightness_squared() -> nat {
    brightness_squared(0, 0, FULL_INTENSITY as nat)
}

/// The largest sample at which a channel of the given weight, lit alone, is
/// no brighter than `target_squared`.
pub open spec fn dimmed_sample(weight: nat, target_squared: nat) -> nat {
    largest_within(weight, 2, target_squared, FULL_INTENSITY as nat)
}

/// The color whose channels are each, lit alone, as bright as blue at full
/// intensity, rounded down to whole samples.
pub open spec fn evenly_lit() -> Seq<u8> {
    seq![
        dimmed_sample(R_COEFFICIENT as nat, target_brightness_squared()) as u8,
        dimmed_sample(G_COEFFICIENT as nat, target_brightness_squared()) as u8,
        FULL_INTENSITY,
    ]
}

/// Whether the brightnesses that belong to the squared brightnesses `dim`
/// and `bright` differ by at most 0.002 of the brightness of white.
///
/// With `K = 1000 * 255 * 255`, the claim `sqrt(bright / K) - sqrt(dim / K)
/// <= 2 / 1000` is `250 * (bright - dim) - K / 1000 <= sqrt(dim * K)`, which
/// holds where the left side is negative and else is compared by squares.
pub open spec fn brightness_within_tolerance(dim: nat, bright: nat) -> bool {
    let gap = 250 * (bright - dim) - UNIT_BRIGHTNESS_SQUARED as int / 1000;
    dim <= bright && (gap <= 0 || gap * gap <= dim * UNIT_BRIGHTNESS_SQUARED as int)
}

/// Computes the squared perceived brightness of a color.
pub fn perceived_brightness_squared(color: [u8; 3]) -> (brightness: u32)
    ensures
        brightness == brightness_squared(color[0] as nat, color[1] as nat, color[2] as nat),
        brightness <= UNIT_BRIGHTNESS_SQUARED,
{
    let r: u32 = color[0] as u32;
    let g: u32 = color[1] as u32;
    let b: u32 = color[2] as u32;
    assert(r * r <= 65025 && g * g <= 65025 && b * b <= 65025) by (nonlinear_arith)
        requires
            r <= 255,
            g <= 255,
            b <= 255,
    ;
    R_COEFFICIENT * (r * r) + G_COEFFICIENT * (g * g) + B_COEFFICIENT * (b * b)
}

/// Solves `weight * sample^2 = target_squared` for the sample of one channel
/// that is lit alone, rounded down and capped at full intensity.
pub fn solve_channel(weight: u32, target_squared: u32) -> (sample: u8)
    ensures
        sample == dimmed_sample(weight as nat, target_squared as nat),
{
    proof {
        reveal_with_fuel(power, 3);
        assert(weight * 65025 <= u128::MAX);
    }
    largest_sample(weight as u128, 2, target_squared as u128, FULL_INTENSITY)
}

/// A color where each channel has approximately the same perceived
/// brightness: a light purple.
///
/// Blue is the weakest channel, so red and green are dimmed to match it.
pub fn evenly_lit_pixel() -> (pixel: [u8; 3])
    ensures
        pixel@ == evenly_lit(),
        pixel@ == seq![157u8, 112u8, 255u8],
{
    let desired: u32 = perceived_brightness_squared([0, 0, FULL_INTENSITY]);
    let r: u8 = solve_channel(R_COEFFICIENT, desired);
    let g: u8 = solve_channel(G_COEFFICIENT, desired);
    let pixel: [u8; 3] = [r, g, FULL_INTENSITY];
    proof {
        lemma_evenly_lit_value();
    }
    pixel
}

/// A channel at its dimmed sample, lit alone, is no brighter than the
/// target, and at the next sample up it would be brighter.
pub proof fn lemma_dimmed_sample_is_just_below(weight: nat, target_squared: nat)
    ensures
        dimmed_sample(weight, target_squared) <= FULL_INTENSITY,
        weight * (dimmed_sample(weight, target_squared) * dimmed_sample(weight, target_squared))
            <= target_squared,
        dimmed_sample(weight, target_squared) < FULL_INTENSITY ==> weight * ((dimmed_sample(
            weight,
            target_squared,
        ) + 1) * (dimmed_sample(weight, target_squared) + 1)) > target_squared,
{
    let sample = dimmed_sample(weight, target_squared);
    lemma_largest_within_is_largest(weight, 2, target_squared, FULL_INTENSITY as nat);
    reveal_with_fuel(power, 3);
    assert(power(sample, 2) == sample * sample) by (nonlinear_arith)
        requires
            power(sample, 2) == sample * (sample * 1),
    ;
    assert(power(sample + 1, 2) == (sample + 1) * (sample + 1)) by (nonlinear_arith)
        requires
            power(sample + 1, 2) == (sample + 1) * ((sample + 1) * 1),
    ;
    if sample == 0 {
        assert(weight * (sample * sample) == 0) by (nonlinear_arith)
            requires
                sample == 0,
        ;
    }
    if sample < FULL_INTENSITY {
        assert(!within_budget(weight, 2, target_squared, sample + 1));
    }
}

/// The evenly lit color is `(157, 112, 255)`.
pub proof fn lemma_evenly_lit_value()
    ensures
        evenly_lit() == seq![157u8, 112u8, 255u8],
{
    reveal_with_fuel(power, 3);
    let target = target_brightness_squared();
    lemma_largest_within_found(R_COEFFICIENT as nat, 2, target, 255, 157);
    lemma_largest_within_found(G_COEFFICIENT as nat, 2, target, 255, 112);
}

/// Each channel of the evenly lit color, lit alone, is as bright as blue at
/// full intensity to within 0.002 of the brightness of white, and never
/// brighter.
pub proof fn lemma_evenly_lit_is_even()
    ensures
        brightness_within_tolerance(
            brightness_squared(evenly_lit()[0] as nat, 0, 0),
            target_brightness_squared(),
        ),
        brightness_within_tolerance(
            brightness_squared(0, evenly_lit()[1] as nat, 0),
            target_brightness_squared(),
        ),
        brightness_within_tolerance(
            brightness_squared(0, 0, evenly_lit()[2] as nat),
            target_brightness_squared(),
        ),
{
    lemma_evenly_lit_value();
    // Red at 157 has the squared brightness 7 370 051, green at 112 has
    // 7 363 328, and the target is 7 412 850.
    assert(10_634_725int * 10_634_725 <= 7_370_051int * 65_025_000);
    assert(12_315_475int * 12_315_475 <= 7_363_328int * 65_025_000);
}

/// The three luminance weights add up to one.
pub proof fn lemma_coefficients_sum_to_one()
    ensures
        R_COEFFICIENT + G_COEFFICIENT + B_COEFFICIENT == 1000,
        brightness_squared(255, 255, 255) == UNIT_BRIGHTNESS_SQUARED,
{
}

} // verus!
