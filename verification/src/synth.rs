//! Phase-accumulating sine-tone source.
//!
//! The synthesiser owns a single phase accumulator in `[0, sample_rate)`,
//! advanced by one per sample and wrapped modulo the sample rate.  The
//! instantaneous sine value is `sin(2*pi * phase * frequency / sample_rate)`,
//! so it depends on the phase only through the *tone position*
//! `(phase * frequency) % sample_rate`; the sine evaluation itself is
//! floating point and is left to the caller, which feeds the phases returned
//! here through it.

use vstd::prelude::*;
use vstd::arithmetic::div_mod::{
    lemma_add_mod_noop_right, lemma_fundamental_div_mod, lemma_mod_add_multiples_vanish,
    lemma_mul_mod_noop_left,
};

verus! {

/// One advance of the phase accumulator: increment, wrapped into `[0, s)`.
pub open spec fn advance_phase(p: int, s: int) -> int {
    (p + 1) % s
}

/// The phase accumulator after `n` advances from `p0`, with sample rate `s`.
pub open spec fn phase_after(p0: int, n: nat, s: int) -> int
    decreases n,
{
    if n == 0 {
        p0
    } else {
        advance_phase(phase_after(p0, (n - 1) as nat, s), s)
    }
}

/// The tone position of phase `p`: the sine argument, as a fraction of a
/// full turn, is `((p * f) % s) / s`.
pub open spec fn tone_position(p: int, f: int, s: int) -> int {
    (p * f) % s
}

/// A sine-wave source: one phase accumulator plus the fixed tone frequency
/// and device sample rate, both in Hz.
pub struct SineSynth {
    pub phase: u32,
    pub frequency: u32,
    pub sample_rate: u32,
}

impl SineSynth {
    /// The accumulator stays within `[0, sample_rate)`; frequency and sample
    /// rate are positive.
    pub open spec fn wf(self) -> bool {
        &&& self.frequency >= 1
        &&& self.sample_rate >= 1
        &&& self.phase < self.sample_rate
    }

    /// A fresh source starts at phase 0.
    pub fn new(frequency: u32, sample_rate: u32) -> (s: SineSynth)
        requires
            frequency >= 1,
            sample_rate >= 1,
        ensures
            s.wf(),
            s.phase == 0,
            s.frequency == frequency,
            s.sample_rate == sample_rate,
    {
        SineSynth { phase: 0, frequency, sample_rate }
    }

    /// Advance the accumulator once and return its new value.
    pub fn next_phase(&mut self) -> (p: u32)
        requires
            old(self).wf(),
        ensures
            final(self).wf(),
            final(self).frequency == old(self).frequency,
            final(self).sample_rate == old(self).sample_rate,
            final(self).phase == advance_phase(old(self).phase as int, old(self).sample_rate as int),
            p == final(self).phase,
    {
        self.phase = (self.phase + 1) % self.sample_rate;
        self.phase
    }

    /// The tone position for the current phase.
    pub fn position(&self) -> (pos: u32)
        requires
            self.wf(),
        ensures
            pos == tone_position(self.phase as int, self.frequency as int, self.sample_rate as int),
    {
        proof {
            assert((self.phase as int * self.frequency as int) % (self.sample_rate as int)
                < self.sample_rate as int) by {
                vstd::arithmetic::div_mod::lemma_mod_division_less_than_divisor(
                    self.phase as int * self.frequency as int,
                    self.sample_rate as int,
                );
            }
            assert(self.phase as int * self.frequency as int >= 0) by {
                vstd::arithmetic::mul::lemma_mul_nonnegative(
                    self.phase as int,
                    self.frequency as int,
                );
            }
            assert(self.phase as int * self.frequency as int <= 0xffff_ffff * 0xffff_ffff) by {
                vstd::arithmetic::mul::lemma_mul_upper_bound(
                    self.phase as int,
                    0xffff_ffff,
                    self.frequency as int,
                    0xffff_ffff,
                );
            }
        }
        (((self.phase as u64) * (self.frequency as u64)) % (self.sample_rate as u64)) as u32
    }

    /// Draw the next `n` phases, one per frame: the `i`-th entry is the
    /// accumulator after `i + 1` advances, and the source ends up advanced
    /// exactly `n` times.
    pub fn take_phases(&mut self, n: usize) -> (phases: Vec<u32>)
        requires
            old(self).wf(),
        ensures
            final(self).wf(),
            final(self).frequency == old(self).frequency,
            final(self).sample_rate == old(self).sample_rate,
            phases.len() == n,
            forall|i: int|
                0 <= i < n ==> #[trigger] phases@[i]
                    == (old(self).phase + i + 1) % (old(self).sample_rate as int),
            final(self).phase == (old(self).phase + n) % (old(self).sample_rate as int),
    {
        let ghost orig = *self;
        let mut phases: Vec<u32> = Vec::new();
        let mut k: usize = 0;
        proof {
            assert(orig.phase as int % (orig.sample_rate as int) == orig.phase as int) by {
                vstd::arithmetic::div_mod::lemma_small_mod(
                    orig.phase as nat,
                    orig.sample_rate as nat,
                );
            }
        }
        while k < n
            invariant
                k <= n,
                self.wf(),
                self.frequency == orig.frequency,
                self.sample_rate == orig.sample_rate,
                orig.wf(),
                phases.len() == k,
                self.phase == (orig.phase + k) % (orig.sample_rate as int),
                forall|i: int|
                    0 <= i < k ==> #[trigger] phases@[i]
                        == (orig.phase + i + 1) % (orig.sample_rate as int),
            decreases n - k,
        {
            proof {
                lemma_add_mod_noop_right(1, orig.phase + k, orig.sample_rate as int);
            }
            let p = self.next_phase();
            phases.push(p);
            k = k + 1;
        }
        phases
    }
}

/// The phase accumulator is deterministic and independent of the frequency:
/// advanced `n` times from `p0` with sample rate `s`, it equals
/// `(p0 + n) % s`; in particular, from a fresh source it equals `n % s`.
pub proof fn lemma_phase_after_n(p0: int, n: nat, s: int)
    requires
        s >= 1,
        0 <= p0 < s,
    ensures
        phase_after(p0, n, s) == (p0 + n) % s,
        p0 == 0 ==> phase_after(p0, n, s) == (n as int) % s,
    decreases n,
{
    if n == 0 {
        vstd::arithmetic::div_mod::lemma_small_mod(p0 as nat, s as nat);
    } else {
        lemma_phase_after_n(p0, (n - 1) as nat, s);
        lemma_add_mod_noop_right(1, p0 + n - 1, s);
    }
}

/// When the frequency `f` divides the sample rate `s`, the tone position —
/// and with it the discretised sine sequence — repeats with period `s / f`
/// samples: after `k` and after `k + s/f` advances the positions agree.
pub proof fn lemma_tone_period(p0: int, k: nat, f: int, s: int)
    requires
        s >= 1,
        f >= 1,
        s % f == 0,
        0 <= p0 < s,
    ensures
        tone_position(phase_after(p0, k + (s / f) as nat, s), f, s)
            == tone_position(phase_after(p0, k, s), f, s),
{
    let d = s / f;
    lemma_fundamental_div_mod(s, f);
    assert(d * f == s);
    lemma_phase_after_n(p0, k + d as nat, s);
    lemma_phase_after_n(p0, k, s);
    let a = p0 + k;
    // ((a + d) % s * f) % s == ((a + d) * f) % s, and likewise for a.
    lemma_mul_mod_noop_left(a + d, f, s);
    lemma_mul_mod_noop_left(a, f, s);
    assert((a + d) * f == a * f + s) by {
        vstd::arithmetic::mul::lemma_mul_is_distributive_add_other_way(f, a, d);
    }
    // Adding one full multiple of s does not change the residue.
    lemma_mod_add_multiples_vanish(a * f, s);
}

} // verus!
