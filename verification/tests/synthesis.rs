use tonegen::buffer::fill_frames;
use tonegen::config::{RunConfig, StreamConfig};
use tonegen::duration::TimeSpan;
use tonegen::synth::SineSynth;

#[test]
fn phase_counts_up_then_wraps() {
    let mut s = SineSynth::new(440, 4);
    let mut seen: Vec<u32> = Vec::new();
    for _ in 0..9 {
        seen.push(s.next_phase());
    }
    assert_eq!(seen, vec![1, 2, 3, 0, 1, 2, 3, 0, 1]);
}

#[test]
fn advanced_sample_rate_times_returns_to_zero() {
    // N advances leave the accumulator at N mod S; here N == S.
    let mut s = SineSynth::new(440, 48_000);
    for _ in 0..48_000 {
        s.next_phase();
    }
    assert_eq!(s.phase, 0);
}

#[test]
fn take_phases_matches_single_steps() {
    let mut a = SineSynth::new(480, 48_000);
    let mut b = SineSynth::new(480, 48_000);
    let batch = a.take_phases(100);
    for i in 0..100 {
        assert_eq!(batch[i], b.next_phase());
    }
    assert_eq!(a.phase, b.phase);
}

#[test]
fn tone_position_repeats_every_hundred_samples() {
    // S = 48000, F = 480: the discretised sine has period S / F = 100.
    let mut s = SineSynth::new(480, 48_000);
    let mut positions: Vec<u32> = Vec::new();
    for _ in 0..250 {
        s.next_phase();
        positions.push(s.position());
    }
    for k in 0..150 {
        assert_eq!(positions[k], positions[k + 100]);
    }
    // And it does not repeat faster than that.
    assert_ne!(positions[0], positions[50]);
}

#[test]
fn fill_duplicates_each_value_across_its_frame() {
    let out = fill_frames(&vec![1u32, 2, 3], 2, 6);
    assert_eq!(out, vec![1, 1, 2, 2, 3, 3]);
}

#[test]
fn fill_handles_a_partial_last_frame() {
    let out = fill_frames(&vec![7u32, 8], 3, 5);
    assert_eq!(out, vec![7, 7, 7, 8, 8]);
}

#[test]
fn fill_mono_copies_values_through() {
    let out = fill_frames(&vec![4u32, 5, 6], 1, 3);
    assert_eq!(out, vec![4, 5, 6]);
}

#[test]
fn one_synthesis_call_per_frame() {
    // A buffer of length 8 at 2 channels draws exactly 4 values, and the
    // accumulator advances exactly 4 times.
    let mut s = SineSynth::new(1000, 44_100);
    let phases = s.take_phases(8 / 2);
    assert_eq!(phases.len(), 4);
    assert_eq!(s.phase, 4);
    let out = fill_frames(&phases, 2, 8);
    assert_eq!(out.len(), 8);
    for fr in 0..4 {
        assert_eq!(out[2 * fr], phases[fr]);
        assert_eq!(out[2 * fr + 1], phases[fr]);
    }
}

#[test]
fn stream_config_rejects_zeroes() {
    assert!(StreamConfig::new(48_000, 2).is_some());
    assert!(StreamConfig::new(0, 2).is_none());
    assert!(StreamConfig::new(48_000, 0).is_none());
}

#[test]
fn run_config_rejects_zero_frequency() {
    let d = TimeSpan { secs: 1, nanos: 0 };
    assert!(RunConfig::new(440, d).is_some());
    assert!(RunConfig::new(0, d).is_none());
}
