//! The frequency of a pitch on the equal-tempered scale, in whole hertz.
//!
//! Pitch 69 sounds at 400 Hz, and each semitone multiplies the frequency by
//! the twelfth root of two: pitch `p` sounds at `400 * 2^((p - 69) / 12)` Hz.
//! That number is irrational for most pitches, so the statements here are
//! made without roots: `hz <= 400 * 2^((p - 69) / 12)` says the same as
//! `hz^12 * 2^69 <= 400^12 * 2^p`.

use vstd::prelude::*;
use vstd::arithmetic::div_mod::{lemma_fundamental_div_mod, lemma_mod_bound};
use vstd::arithmetic::mul::{
    lemma_mul_inequality,
    lemma_mul_inequality_converse,
    lemma_mul_is_associative,
    lemma_mul_strict_inequality_converse,
};
use vstd::arithmetic::power::{lemma_pow_distributes, lemma_pow_multiplies, lemma_pow_positive, pow};
use vstd::arithmetic::power2::{lemma2_to64, lemma_pow2, lemma_pow2_adds, lemma_pow2_pos, pow2};
use vstd::bits::lemma_u32_shr_is_div;

verus! {

/// The pitch that sounds at the reference frequency.
pub const BASE_PITCH: u8 = 69;

/// The reference frequency, in hertz.
pub const BASE_FREQUENCY: u32 = 400;

/// Whether `hz` is the frequency of `pitch` with its fraction cut off:
/// `hz <= 400 * 2^((pitch - 69) / 12) < hz + 1`.
pub open spec fn is_whole_hertz(pitch: int, hz: int) -> bool {
    &&& 0 <= hz
    &&& pow(hz, 12) * pow2(69) <= pow(400, 12) * pow2(pitch as nat)
    &&& pow(400, 12) * pow2(pitch as nat) < pow(hz + 1, 12) * pow2(69)
}

/// The frequency of `pitch` in hertz, with its fraction cut off.
pub open spec fn hertz(pitch: u8) -> int {
    choose|hz: int| is_whole_hertz(pitch as int, hz)
}

/// A larger base gives a larger power.
pub proof fn lemma_pow_grows_with_base(a: int, b: int, e: nat)
    requires
        0 <= a <= b,
    ensures
        0 <= pow(a, e) <= pow(b, e),
    decreases e,
{
    reveal(pow);
    if e > 0 {
        lemma_pow_grows_with_base(a, b, (e - 1) as nat);
        let x = pow(a, (e - 1) as nat);
        let y = pow(b, (e - 1) as nat);
        assert(0 <= a * x <= b * y) by (nonlinear_arith)
            requires
                0 <= a <= b,
                0 <= x <= y,
        ;
    }
}

/// At most one whole number is the frequency of a pitch with its fraction
/// cut off.
pub proof fn lemma_whole_hertz_is_unique(pitch: int, first: int, second: int)
    requires
        is_whole_hertz(pitch, first),
        is_whole_hertz(pitch, second),
    ensures
        first == second,
{
    lemma_pow2_pos(69);
    if first < second {
        lemma_pow_grows_with_base(first + 1, second, 12);
        lemma_mul_inequality(pow(first + 1, 12), pow(second, 12), pow2(69) as int);
    } else if second < first {
        lemma_pow_grows_with_base(second + 1, first, 12);
        lemma_mul_inequality(pow(second + 1, 12), pow(first, 12), pow2(69) as int);
    }
}

/// Every pitch has its whole hertz.
pub proof fn lemma_whole_hertz_exists(pitch: u8)
    ensures
        is_whole_hertz(pitch as int, hertz(pitch)),
{
    let semitones = pitch + 3;
    let step = semitones % 12;
    let shift = (28 - semitones / 12) as nat;
    let scaled = scaled_semitone_value(step);
    lemma_scaled_semitone(step);
    lemma_unscaled(pitch as int, step as nat, shift, scaled, scaled / (pow2(shift) as int));
}

/// The twelfth power written out as a product.
pub proof fn lemma_twelfth_power(x: int)
    ensures
        pow(x, 12) == x * (x * (x * (x * (x * (x * (x * (x * (x * (x * (x * (x * 1))))))))))),
{
    reveal_with_fuel(pow, 13);
}

/// The frequency of the semitone `step` above a pitch of 400 Hz, scaled by
/// `2^22` and with its fraction cut off.
pub open spec fn scaled_semitone_value(step: int) -> int {
    if step == 0 {
        1677721600
    } else if step == 1 {
        1777484117
    } else if step == 2 {
        1883178823
    } else if step == 3 {
        1995158463
    } else if step == 4 {
        2113796759
    } else if step == 5 {
        2239489655
    } else if step == 6 {
        2372656640
    } else if step == 7 {
        2513742146
    } else if step == 8 {
        2663217032
    } else if step == 9 {
        2821580158
    } else if step == 10 {
        2989360045
    } else {
        3167116644
    }
}

/// Each entry of the table is the scaled frequency of its semitone with
/// the fraction cut off: its twelfth power is at most `2^step` times that of
/// the scaled reference frequency, and that of the next number is more.
proof fn lemma_scaled_semitone(step: int)
    requires
        0 <= step < 12,
    ensures
        0 <= scaled_semitone_value(step) < 0x1_0000_0000,
        pow(scaled_semitone_value(step), 12) <= pow(1677721600, 12) * pow2(step as nat),
        pow(1677721600, 12) * pow2(step as nat) < pow(scaled_semitone_value(step) + 1, 12),
{
    let reference = pow(1677721600, 12);
    let factor = pow2(step as nat) as int;
    lemma2_to64();
    lemma_twelfth_power(1677721600);
    if step == 0 {
        lemma_twelfth_power(1677721601);
        assert(reference * factor == reference * 1) by (nonlinear_arith)
            requires
                factor == 1,
        ;
    } else if step == 1 {
        lemma_twelfth_power(1777484117);
        lemma_twelfth_power(1777484118);
        assert(reference * factor == reference * 2) by (nonlinear_arith)
            requires
                factor == 2,
        ;
    } else if step == 2 {
        lemma_twelfth_power(1883178823);
        lemma_twelfth_power(1883178824);
        assert(reference * factor == reference * 4) by (nonlinear_arith)
            requires
                factor == 4,
        ;
    } else if step == 3 {
        lemma_twelfth_power(1995158463);
        lemma_twelfth_power(1995158464);
        assert(reference * factor == reference * 8) by (nonlinear_arith)
            requires
                factor == 8,
        ;
    } else if step == 4 {
        lemma_twelfth_power(2113796759);
        lemma_twelfth_power(2113796760);
        assert(reference * factor == reference * 16) by (nonlinear_arith)
            requires
                factor == 16,
        ;
    } else if step == 5 {
        lemma_twelfth_power(2239489655);
        lemma_twelfth_power(2239489656);
        assert(reference * factor == reference * 32) by (nonlinear_arith)
            requires
                factor == 32,
        ;
    } else if step == 6 {
        lemma_twelfth_power(2372656640);
        lemma_twelfth_power(2372656641);
        assert(reference * factor == reference * 64) by (nonlinear_arith)
            requires
                factor == 64,
        ;
    } else if step == 7 {
        lemma_twelfth_power(2513742146);
        lemma_twelfth_power(2513742147);
        assert(reference * factor == reference * 128) by (nonlinear_arith)
            requires
                factor == 128,
        ;
    } else if step == 8 {
        lemma_twelfth_power(2663217032);
        lemma_twelfth_power(2663217033);
        assert(reference * factor == reference * 256) by (nonlinear_arith)
            requires
                factor == 256,
        ;
    } else if step == 9 {
        lemma_twelfth_power(2821580158);
        lemma_twelfth_power(2821580159);
        assert(reference * factor == reference * 512) by (nonlinear_arith)
            requires
                factor == 512,
        ;
    } else if step == 10 {
        lemma_twelfth_power(2989360045);
        lemma_twelfth_power(2989360046);
        assert(reference * factor == reference * 1024) by (nonlinear_arith)
            requires
                factor == 1024,
        ;
    } else {
        lemma_twelfth_power(3167116644);
        lemma_twelfth_power(3167116645);
        assert(reference * factor == reference * 2048) by (nonlinear_arith)
            requires
                factor == 2048,
        ;
    }
}

/// Looks up the scaled frequency of a semitone.
fn scaled_semitone(step: u8) -> (scaled: u32)
    requires
        step < 12,
    ensures
        scaled == scaled_semitone_value(step as int),
{
    if step == 0 {
        1677721600
    } else if step == 1 {
        1777484117
    } else if step == 2 {
        1883178823
    } else if step == 3 {
        1995158463
    } else if step == 4 {
        2113796759
    } else if step == 5 {
        2239489655
    } else if step == 6 {
        2372656640
    } else if step == 7 {
        2513742146
    } else if step == 8 {
        2663217032
    } else if step == 9 {
        2821580158
    } else if step == 10 {
        2989360045
    } else {
        3167116644
    }
}

/// Cutting `shift` low bits off a scaled frequency leaves the whole hertz of
/// the pitch, when the scale and the shift add up to the pitch's octave.
proof fn lemma_unscaled(pitch: int, step: nat, shift: nat, scaled: int, hz: int)
    requires
        0 <= pitch <= 255,
        step < 12,
        12 * shift == 333 - pitch + step,
        0 <= scaled,
        pow(scaled, 12) <= pow(1677721600, 12) * pow2(step),
        pow(1677721600, 12) * pow2(step) < pow(scaled + 1, 12),
        hz == scaled / (pow2(shift) as int),
    ensures
        is_whole_hertz(pitch, hz),
{
    let unit = pow2(shift) as int;
    let rest = (264 + step - pitch) as nat;
    let low = pow(hz, 12);
    let high = pow(hz + 1, 12);
    let base = pow(400, 12);
    lemma_pow2_pos(shift);
    lemma_pow2_pos(rest);
    lemma_pow2_pos(69);
    // hz * unit <= scaled < (hz + 1) * unit
    lemma_fundamental_div_mod(scaled, unit);
    lemma_mod_bound(scaled, unit);
    assert(0 <= hz) by (nonlinear_arith)
        requires
            scaled == unit * hz + scaled % unit,
            0 <= scaled % unit < unit,
            0 <= scaled,
    ;
    assert(hz * unit <= scaled && scaled + 1 <= (hz + 1) * unit) by (nonlinear_arith)
        requires
            scaled == unit * hz + scaled % unit,
            0 <= scaled % unit < unit,
    ;
    assert(0 <= hz * unit) by (nonlinear_arith)
        requires
            0 <= hz,
            0 < unit,
    ;
    lemma_pow_grows_with_base(hz * unit, scaled, 12);
    lemma_pow_grows_with_base(scaled + 1, (hz + 1) * unit, 12);
    lemma_pow_distributes(hz, unit, 12);
    lemma_pow_distributes(hz + 1, unit, 12);
    // unit^12 == 2^(12 * shift) == 2^69 * 2^rest
    lemma_pow2(shift);
    lemma_pow_multiplies(2, shift, 12);
    lemma_pow2(shift * 12);
    lemma_pow2_adds(69, rest);
    assert(pow(unit, 12) == pow2(69) * pow2(rest));
    // 1677721600^12 * 2^step == 400^12 * 2^pitch * 2^rest
    lemma2_to64();
    assert(1677721600 == 400 * pow2(22));
    lemma_pow_distributes(400, pow2(22) as int, 12);
    lemma_pow2(22);
    lemma_pow_multiplies(2, 22, 12);
    lemma_pow2(264);
    lemma_pow2_adds(264, step);
    lemma_pow2_adds(pitch as nat, rest);
    assert(pow(1677721600, 12) == base * pow2(264));
    lemma_mul_is_associative(base, pow2(264) as int, pow2(step) as int);
    lemma_mul_is_associative(base, pow2(pitch as nat) as int, pow2(rest) as int);
    assert(pow(1677721600, 12) * pow2(step) == (base * pow2(pitch as nat)) * pow2(rest));
    lemma_mul_is_associative(low, pow2(69) as int, pow2(rest) as int);
    lemma_mul_is_associative(high, pow2(69) as int, pow2(rest) as int);
    assert((low * pow2(69)) * pow2(rest) <= (base * pow2(pitch as nat)) * pow2(rest));
    assert((base * pow2(pitch as nat)) * pow2(rest) < (high * pow2(69)) * pow2(rest));
    lemma_mul_inequality_converse(
        low * pow2(69),
        base * pow2(pitch as nat),
        pow2(rest) as int,
    );
    lemma_mul_strict_inequality_converse(
        base * pow2(pitch as nat),
        high * pow2(69),
        pow2(rest) as int,
    );
}

/// The frequency of `pitch` in hertz, with its fraction cut off.
pub fn frequency_hz(pitch: u8) -> (hz: u32)
    ensures
        is_whole_hertz(pitch as int, hz as int),
        hz == hertz(pitch),
{
    let semitones: u16 = pitch as u16 + 3;
    let octave: u16 = semitones / 12;
    let step: u8 = (semitones % 12) as u8;
    let shift: u32 = 28 - octave as u32;
    let scaled: u32 = scaled_semitone(step);
    let hz: u32 = scaled >> shift;
    proof {
        lemma_u32_shr_is_div(scaled, shift);
        lemma_scaled_semitone(step as int);
        lemma_unscaled(pitch as int, step as nat, shift as nat, scaled as int, hz as int);
        lemma_whole_hertz_is_unique(pitch as int, hz as int, hertz(pitch));
    }
    hz
}

/// An octave doubles the frequency: the whole hertz of the pitch twelve
/// semitones up are twice those of the pitch, or one more where the
/// fraction that was cut off makes up for it.
pub proof fn lemma_octave_doubles(pitch: u8)
    requires
        pitch <= 243,
    ensures
        2 * hertz(pitch) <= hertz((pitch + 12) as u8) <= 2 * hertz(pitch) + 1,
{
    let low = hertz(pitch);
    let high = hertz((pitch + 12) as u8);
    lemma_whole_hertz_exists(pitch);
    lemma_whole_hertz_exists((pitch + 12) as u8);
    let base = pow(400, 12);
    let unit = pow2(69) as int;
    lemma2_to64();
    lemma_pow2(12);
    lemma_pow2_pos(69);
    lemma_pow2_adds(pitch as nat, 12);
    lemma_pow_distributes(low, 2, 12);
    lemma_pow_distributes(low + 1, 2, 12);
    // (2 * low)^12 * 2^69 <= 400^12 * 2^(pitch + 12) < (2 * low + 2)^12 * 2^69
    assert(pow(low * 2, 12) * unit <= base * pow2((pitch + 12) as nat)) by (nonlinear_arith)
        requires
            pow(low * 2, 12) == pow(low, 12) * 4096,
            pow2((pitch + 12) as nat) == pow2(pitch as nat) * 4096,
            pow(low, 12) * unit <= base * pow2(pitch as nat),
    ;
    assert(base * pow2((pitch + 12) as nat) < pow((low + 1) * 2, 12) * unit) by (nonlinear_arith)
        requires
            pow((low + 1) * 2, 12) == pow(low + 1, 12) * 4096,
            pow2((pitch + 12) as nat) == pow2(pitch as nat) * 4096,
            base * pow2(pitch as nat) < pow(low + 1, 12) * unit,
    ;
    if high < 2 * low {
        lemma_pow_grows_with_base(high + 1, low * 2, 12);
        lemma_mul_inequality(pow(high + 1, 12), pow(low * 2, 12), unit);
    } else if high > 2 * low + 1 {
        lemma_pow_grows_with_base((low + 1) * 2, high, 12);
        lemma_mul_inequality(pow((low + 1) * 2, 12), pow(high, 12), unit);
    }
}

/// The reference pitch sounds at 400 Hz, the pitch an octave above it at
/// 800 Hz, and the pitch an octave below it at 200 Hz, each of them exactly:
/// nothing is cut off.
pub proof fn lemma_reference_octaves()
    ensures
        hertz(69) == 400,
        hertz(81) == 800,
        hertz(57) == 200,
        pow(800, 12) * pow2(69) == pow(400, 12) * pow2(81),
        pow(200, 12) * pow2(69) == pow(400, 12) * pow2(57),
{
    lemma2_to64();
    lemma_pow2_adds(69, 12);
    lemma_pow2_adds(57, 12);
    lemma_pow_distributes(400, 2, 12);
    lemma_pow_distributes(200, 2, 12);
    lemma_pow2(12);
    let base = pow(400, 12);
    let unit = pow2(69) as int;
    lemma_pow_positive(400, 12);
    lemma_pow2_pos(69);
    lemma_pow2_pos(57);
    // 69: 400^12 * 2^69 <= 400^12 * 2^69 < 401^12 * 2^69
    lemma_pow_grows_with_base(400, 401, 12);
    assert(pow(400, 12) < pow(401, 12)) by {
        lemma_twelfth_power(400);
        lemma_twelfth_power(401);
    }
    assert(base * unit < pow(401, 12) * unit) by (nonlinear_arith)
        requires
            base < pow(401, 12),
            0 < unit,
    ;
    assert(is_whole_hertz(69, 400));
    lemma_whole_hertz_is_unique(69, 400, hertz(69));
    // 81: 800^12 * 2^69 == 400^12 * 2^81 < 801^12 * 2^69
    assert(pow(800, 12) == base * pow2(12));
    lemma_mul_is_associative(base, pow2(12) as int, unit);
    assert(pow(800, 12) < pow(801, 12)) by {
        lemma_twelfth_power(800);
        lemma_twelfth_power(801);
    }
    assert(pow(800, 12) * unit < pow(801, 12) * unit) by (nonlinear_arith)
        requires
            pow(800, 12) < pow(801, 12),
            0 < unit,
    ;
    assert(pow2(81) == pow2(12) * pow2(69));
    assert(is_whole_hertz(81, 800));
    lemma_whole_hertz_is_unique(81, 800, hertz(81));
    // 57: 200^12 * 2^69 == 400^12 * 2^57 < 201^12 * 2^69
    let small = pow(200, 12);
    assert(base == small * pow2(12));
    assert(unit == pow2(57) * pow2(12));
    assert(small * unit == base * pow2(57)) by (nonlinear_arith)
        requires
            base == small * pow2(12),
            unit == pow2(57) * pow2(12),
    ;
    assert(pow(200, 12) < pow(201, 12)) by {
        lemma_twelfth_power(200);
        lemma_twelfth_power(201);
    }
    assert(small * unit < pow(201, 12) * unit) by (nonlinear_arith)
        requires
            small < pow(201, 12),
            0 < unit,
    ;
    assert(is_whole_hertz(57, 200));
    lemma_whole_hertz_is_unique(57, 200, hertz(57));
}

} // verus!
