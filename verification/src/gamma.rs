//! The intensity that a subpixel is stored with: the evenly lit sample of
//! its channel, taken out of the encoding gamma and put under the gamma of
//! that channel.
//!
//! A sample is first raised to `1 / 2.2`, which undoes the encoding, and
//! then to the gamma of its channel: altogether to `gamma / 2.2`. Gammas
//! are counted in fifths, so that 2.2 is 11. A sample `s` under the exponent
//! `gamma / 2.2` is `255 * (s / 255)^(gamma / 11)`; rounded down, that is the
//! largest `v` with `v^11 <= s^gamma * 255^(11 - gamma)`.

use vstd::prelude::*;
use crate::layout::Channel;
use crate::perceived_brightness::{evenly_lit, lemma_evenly_lit_value, FULL_INTENSITY};
use crate::quantize::{
    largest_sample,
    largest_within,
    lemma_largest_within_found,
    lemma_power_monotonic,
    lemma_power_strictly_monotonic,
    power,
    raise,
};

verus! {

/// The gamma that samples are assumed to be encoded with: 2.2, in fifths.
pub const ENCODING_GAMMA: u32 = 11;

/// The gamma of the red, green and blue channel of the display: 2.2, 2.0
/// and 1.8, in fifths.
pub const GAMMA_PER_CHANNEL: [u32; 3] = [11, 10, 9];

/// The gamma of a channel, in fifths.
pub open spec fn channel_gamma(channel: Channel) -> nat {
    GAMMA_PER_CHANNEL[channel.offset() as int] as nat
}

/// The sample `scaled` raised to `gamma / 2.2` on the scale from 0 to 255,
/// rounded down.
pub open spec fn corrected_sample(scaled: nat, gamma: nat) -> nat
    recommends
        gamma <= ENCODING_GAMMA,
{
    largest_within(
        1,
        ENCODING_GAMMA as nat,
        power(scaled, gamma) * power(FULL_INTENSITY as nat, (ENCODING_GAMMA - gamma) as nat),
        FULL_INTENSITY as nat,
    )
}

/// The sample that a subpixel of `channel` is stored with: zero where it is
/// off, and the corrected sample of the reference color where it is on.
pub open spec fn stored_sample(reference: Seq<u8>, channel: Channel, on: bool) -> u8 {
    let scaled: nat = if on {
        reference[channel.offset() as int] as nat
    } else {
        0
    };
    corrected_sample(scaled, channel_gamma(channel)) as u8
}

/// `255^11`, the largest power that the correction compares.
pub open spec fn full_scale() -> nat {
    296_443_535_898_840_969_287_109_375
}

/// The powers of 255 up to its eleventh.
pub proof fn lemma_powers_of_full_intensity()
    ensures
        power(255, 0) == 1,
        power(255, 1) == 255,
        power(255, 2) == 65_025,
        power(255, 9) == 4_558_916_353_692_287_109_375,
        power(255, 10) == 1_162_523_670_191_533_212_890_625,
        power(255, 11) == full_scale(),
{
    reveal_with_fuel(power, 12);
}

/// Applies the gamma of `channel` to a sample in place of the encoding
/// gamma.
pub fn gamma_correct(scaled: u8, channel: Channel) -> (sample: u8)
    ensures
        sample == corrected_sample(scaled as nat, channel_gamma(channel)),
{
    let gamma: u32 = GAMMA_PER_CHANNEL[channel.index()];
    let rest: u32 = ENCODING_GAMMA - gamma;
    proof {
        lemma_powers_of_full_intensity();
        lemma_power_monotonic(scaled as nat, 255, gamma as nat);
    }
    assert(power(255, gamma as nat) * power(255, rest as nat) == full_scale()) by {
        assert(gamma == 11 || gamma == 10 || gamma == 9);
        assert(1_162_523_670_191_533_212_890_625 * 255 == full_scale());
        assert(4_558_916_353_692_287_109_375 * 65_025 == full_scale());
    }
    let lit: u128 = raise(scaled, gamma);
    let scale: u128 = raise(FULL_INTENSITY, rest);
    assert(lit * scale <= full_scale()) by (nonlinear_arith)
        requires
            lit <= power(255, gamma as nat),
            scale == power(255, rest as nat),
            power(255, gamma as nat) * power(255, rest as nat) == full_scale(),
    ;
    largest_sample(1, ENCODING_GAMMA, lit * scale, FULL_INTENSITY)
}

/// The sample to store for a subpixel of `channel` that is switched on or
/// off, given the evenly lit reference color.
pub fn subpixel_intensity(reference: &[u8; 3], channel: Channel, on: bool) -> (sample: u8)
    ensures
        sample == stored_sample(reference@, channel, on),
        !on ==> sample == 0,
{
    let scaled: u8 = if on {
        reference[channel.index()]
    } else {
        0
    };
    proof {
        lemma_dark_stays_dark(channel_gamma(channel));
    }
    gamma_correct(scaled, channel)
}

/// A sample of zero stays zero under every gamma.
pub proof fn lemma_dark_stays_dark(gamma: nat)
    requires
        1 <= gamma <= ENCODING_GAMMA,
    ensures
        corrected_sample(0, gamma) == 0,
{
    assert(power(0, gamma) == 0);
    reveal_with_fuel(power, 12);
    lemma_largest_within_found(1, 11, 0, 255, 0);
}

/// A subpixel that is switched off is stored as zero, whatever the
/// reference color and the gamma of its channel.
pub proof fn lemma_off_is_dark(reference: Seq<u8>, channel: Channel)
    ensures
        stored_sample(reference, channel, false) == 0,
{
    lemma_dark_stays_dark(channel_gamma(channel));
}

/// Under the encoding gamma itself the correction changes no sample.
pub proof fn lemma_encoding_gamma_is_neutral(scaled: nat)
    requires
        scaled <= FULL_INTENSITY,
    ensures
        corrected_sample(scaled, ENCODING_GAMMA as nat) == scaled,
{
    assert(power(scaled, 11) * 1 == power(scaled, 11)) by (nonlinear_arith);
    assert(1 * power(scaled, 11) == power(scaled, 11)) by (nonlinear_arith);
    lemma_power_strictly_monotonic(scaled, scaled + 1, 11);
    assert(1 * power(scaled + 1, 11) == power(scaled + 1, 11)) by (nonlinear_arith);
    lemma_largest_within_found(1, 11, power(scaled, 11), 255, scaled);
}

/// A subpixel that is switched on is stored as 157 where it is red, 120
/// where it is green and 255 where it is blue.
pub proof fn lemma_lit_samples()
    ensures
        stored_sample(evenly_lit(), Channel::Red, true) == 157,
        stored_sample(evenly_lit(), Channel::Green, true) == 120,
        stored_sample(evenly_lit(), Channel::Blue, true) == 255,
{
    lemma_evenly_lit_value();
    lemma_encoding_gamma_is_neutral(157);
    assert(corrected_sample(112, 10) == 120) by {
        // 120^11 <= 112^10 * 255 < 121^11
        reveal_with_fuel(power, 12);
        lemma_largest_within_found(1, 11, 79_199_129_312_777_333_637_120, 255, 120);
    }
    assert(corrected_sample(255, 9) == 255) by {
        lemma_powers_of_full_intensity();
        lemma_largest_within_found(1, 11, full_scale(), 255, 255);
    }
}

} // verus!
