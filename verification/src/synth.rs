//! The synthesizer: from a melody to a run of audio samples.
//!
//! Each tone fills a number of samples that follows from the tempo and the
//! tone's duration. The value of each sample comes from a waveform that the
//! caller supplies; it is asked for every sample of a tone in turn, with the
//! sample's position counted from the start of that tone.

use vstd::prelude::*;
use crate::duration::Duration;
use crate::tone::{Melody, Tone};

verus! {

/// Samples per second of the audio that is rendered.
pub const SAMPLING_RATE: u32 = 44_100;

/// Seconds in a minute.
pub const SECONDS_PER_MINUTE: u32 = 60;

/// Channels of the audio that is rendered: one.
pub const CHANNEL_COUNT: u16 = 1;

/// Bits of each sample.
pub const BITS_PER_SAMPLE: u16 = 16;

/// The number of samples that a tone of the given duration fills at `bpm`
/// beats per minute.
///
/// A beat lasts `60 / bpm` seconds, the tone lasts
/// `duration.thirty_seconds() / 32` beats, and a second holds 44100 samples.
/// The product is rounded to the nearest whole number, a half upwards.
/// `lemma_nearest_is_sample_count` settles the count for given numbers.
pub open spec fn sample_count(bpm: int, duration: Duration) -> int {
    (2 * (60 * 44100 * duration.thirty_seconds()) + 32 * bpm) / (2 * (32 * bpm))
}

/// The number of samples that the first `k` tones fill together.
pub open spec fn samples_before(bpm: int, units: Seq<Tone>, k: int) -> int
    decreases k,
{
    if k <= 0 {
        0
    } else {
        samples_before(bpm, units, k - 1) + sample_count(bpm, units[k - 1].duration)
    }
}

/// The position in the rendered audio of sample `i` of tone `k`.
pub open spec fn sample_index(bpm: int, units: Seq<Tone>, k: int, i: int) -> int {
    samples_before(bpm, units, k) + i
}

/// Whether `samples` is what rendering `melody` with `wave` may give: the
/// tones' runs follow one another in the melody's order with nothing
/// between them, each run has the length its tone's duration asks for, and
/// each sample is a result of `wave` on its tone, its position within the
/// run and the run's length.
pub open spec fn renders_to<W: Fn(Tone, u32, u32) -> i16>(
    melody: Melody,
    wave: W,
    samples: Seq<i16>,
) -> bool {
    let bpm = melody.bpm as int;
    let units = melody.units@;
    &&& samples.len() == samples_before(bpm, units, units.len() as int)
    &&& forall|k: int, i: int|
        0 <= k < units.len() && 0 <= i < sample_count(bpm, units[k].duration) ==> call_ensures(
            wave,
            (units[k], i as u32, sample_count(bpm, units[k].duration) as u32),
            #[trigger] samples[sample_index(bpm, units, k, i)],
        )
}

/// The rounded sample count is the whole number nearest to the exact
/// length `60 * 44100 * thirty_seconds / (32 * bpm)`: it differs from it by
/// at most a half, and by less than a half from below.
pub proof fn lemma_sample_count_is_nearest(bpm: int, duration: Duration)
    requires
        bpm > 0,
    ensures
        ({
            let exact = 60 * 44100 * duration.thirty_seconds();
            let unit = 32 * bpm;
            let count = sample_count(bpm, duration);
            &&& 2 * exact - unit < 2 * (count * unit)
            &&& 2 * (count * unit) <= 2 * exact + unit
        }),
        0 <= sample_count(bpm, duration) <= 60 * 44100 * 8,
{
    let exact = 60 * 44100 * duration.thirty_seconds();
    let unit = 32 * bpm;
    let count = sample_count(bpm, duration);
    vstd::arithmetic::div_mod::lemma_fundamental_div_mod(2 * exact + unit, 2 * unit);
    vstd::arithmetic::div_mod::lemma_mod_bound(2 * exact + unit, 2 * unit);
    assert((2 * unit) * count == 2 * (count * unit)) by (nonlinear_arith);
    assert(count >= 0) by (nonlinear_arith)
        requires
            2 * exact - unit < 2 * (count * unit),
            exact >= 0,
            unit >= 32,
    ;
    assert(count <= 60 * 44100 * 8) by (nonlinear_arith)
        requires
            2 * (count * unit) <= 2 * exact + unit,
            exact <= 60 * 44100 * 256,
            unit >= 32,
    ;
}

/// No other whole number is as near to the exact length: a count that
/// differs from it by at most a half, and by less than a half from below,
/// is the sample count.
pub proof fn lemma_nearest_is_sample_count(bpm: int, duration: Duration, count: int)
    requires
        bpm > 0,
        2 * (60 * 44100 * duration.thirty_seconds()) - 32 * bpm < 2 * (count * (32 * bpm)),
        2 * (count * (32 * bpm)) <= 2 * (60 * 44100 * duration.thirty_seconds()) + 32 * bpm,
    ensures
        count == sample_count(bpm, duration),
{
    lemma_sample_count_is_nearest(bpm, duration);
    let exact = 60 * 44100 * duration.thirty_seconds();
    let unit = 32 * bpm;
    let other = sample_count(bpm, duration);
    assert(count == other) by (nonlinear_arith)
        requires
            unit > 0,
            2 * exact - unit < 2 * (count * unit),
            2 * (count * unit) <= 2 * exact + unit,
            2 * exact - unit < 2 * (other * unit),
            2 * (other * unit) <= 2 * exact + unit,
    ;
}

/// The first `a` tones fill no more samples than the first `b`, for `a` up
/// to `b`.
pub proof fn lemma_samples_before_grows(bpm: int, units: Seq<Tone>, a: int, b: int)
    requires
        bpm > 0,
        0 <= a <= b,
    ensures
        0 <= samples_before(bpm, units, a) <= samples_before(bpm, units, b),
    decreases b,
{
    if b > 0 {
        lemma_sample_count_is_nearest(bpm, units[b - 1].duration);
        if a < b {
            lemma_samples_before_grows(bpm, units, a, b - 1);
        } else {
            lemma_samples_before_grows(bpm, units, a - 1, b - 1);
        }
    }
}

/// The number of samples that a tone of the given duration fills at `bpm`
/// beats per minute.
pub fn time_calc(bpm: u8, duration: &Duration) -> (samples: u32)
    requires
        bpm > 0,
    ensures
        samples == sample_count(bpm as int, *duration),
{
    let units: u64 = duration.beat_units() as u64;
    let per_minute: u64 = (SECONDS_PER_MINUTE as u64) * (SAMPLING_RATE as u64);
    assert(per_minute == 60 * 44100 && per_minute * units <= 60 * 44100 * 256) by (nonlinear_arith)
        requires
            per_minute == SECONDS_PER_MINUTE * SAMPLING_RATE,
            SECONDS_PER_MINUTE == 60,
            SAMPLING_RATE == 44100,
            units <= 256,
    ;
    let exact: u64 = per_minute * units;
    let unit: u64 = 32 * (bpm as u64);
    proof {
        lemma_sample_count_is_nearest(bpm as int, *duration);
    }
    let count: u64 = (2 * exact + unit) / (2 * unit);
    count as u32
}

/// Appends the samples of one tone to `samples`.
pub fn write_tone<W: Fn(Tone, u32, u32) -> i16>(
    bpm: u8,
    tone: &Tone,
    wave: &W,
    samples: &mut Vec<i16>,
)
    requires
        bpm > 0,
        forall|t: Tone, i: u32, n: u32| i < n ==> call_requires(*wave, (t, i, n)),
    ensures
        final(samples)@.len() == old(samples)@.len() + sample_count(bpm as int, tone.duration),
        forall|j: int| 0 <= j < old(samples)@.len() ==> final(samples)@[j] == old(samples)@[j],
        forall|i: int|
            0 <= i < sample_count(bpm as int, tone.duration) ==> call_ensures(
                *wave,
                (*tone, i as u32, sample_count(bpm as int, tone.duration) as u32),
                #[trigger] final(samples)@[old(samples)@.len() + i],
            ),
{
    let steps: u32 = time_calc(bpm, &tone.duration);
    let ghost before = samples@;
    let mut step: u32 = 0;
    while step < steps
        invariant
            step <= steps,
            steps == sample_count(bpm as int, tone.duration),
            samples@.len() == before.len() + step,
            forall|t: Tone, i: u32, n: u32| i < n ==> call_requires(*wave, (t, i, n)),
            forall|j: int| 0 <= j < before.len() ==> samples@[j] == before[j],
            forall|i: int|
                0 <= i < step ==> call_ensures(
                    *wave,
                    (*tone, i as u32, steps),
                    #[trigger] samples@[before.len() + i],
                ),
        decreases steps - step,
    {
        let value: i16 = wave(*tone, step, steps);
        samples.push(value);
        step += 1;
    }
}

/// Renders a melody: the samples of its tones, one tone after the other.
pub fn write_melody<W: Fn(Tone, u32, u32) -> i16>(melody: &Melody, wave: W) -> (samples: Vec<i16>)
    requires
        melody.bpm > 0,
        forall|t: Tone, i: u32, n: u32| i < n ==> call_requires(wave, (t, i, n)),
    ensures
        renders_to(*melody, wave, samples@),
{
    let ghost bpm = melody.bpm as int;
    let ghost units = melody.units@;
    let mut samples: Vec<i16> = Vec::new();
    let mut k: usize = 0;
    while k < melody.units.len()
        invariant
            k <= units.len(),
            melody.bpm > 0,
            bpm == melody.bpm,
            units == melody.units@,
            forall|t: Tone, i: u32, n: u32| i < n ==> call_requires(wave, (t, i, n)),
            samples@.len() == samples_before(bpm, units, k as int),
            forall|m: int, i: int|
                0 <= m < k && 0 <= i < sample_count(bpm, units[m].duration) ==> call_ensures(
                    wave,
                    (units[m], i as u32, sample_count(bpm, units[m].duration) as u32),
                    #[trigger] samples@[sample_index(bpm, units, m, i)],
                ),
        decreases units.len() - k,
    {
        let ghost before = samples@;
        write_tone(melody.bpm, &melody.units[k], &wave, &mut samples);
        proof {
            assert forall|m: int, i: int|
                0 <= m < k + 1 && 0 <= i < sample_count(
                    bpm,
                    units[m].duration,
                ) implies call_ensures(
                wave,
                (units[m], i as u32, sample_count(bpm, units[m].duration) as u32),
                #[trigger] samples@[sample_index(bpm, units, m, i)],
            ) by {
                if m < k {
                    lemma_samples_before_grows(bpm, units, m + 1, k as int);
                    lemma_samples_before_grows(bpm, units, 0, m);
                    assert(samples_before(bpm, units, m + 1) == samples_before(bpm, units, m)
                        + sample_count(bpm, units[m].duration));
                    assert(samples@[sample_index(bpm, units, m, i)] == before[sample_index(
                        bpm,
                        units,
                        m,
                        i,
                    )]);
                } else {
                    assert(sample_index(bpm, units, m, i) == before.len() + i);
                }
            }
        }
        k += 1;
    }
    samples
}

} // verus!
