//! Filling an interleaved output buffer.
//!
//! The audio driver asks for a buffer of `out_len` samples laid out as
//! consecutive frames of `channels` samples each (the last frame may be
//! cut short).  The mono tone supplies one value per frame, and that value
//! is written into every slot of its frame.

use vstd::prelude::*;
use vstd::arithmetic::div_mod::{
    lemma_div_is_ordered, lemma_div_multiples_vanish_fancy, lemma_hoist_over_denominator,
};

verus! {

/// How many frames a buffer of `out_len` samples holds at `channels`
/// samples per frame, counting a trailing partial frame.
pub open spec fn frame_count(out_len: int, channels: int) -> int {
    (out_len + channels - 1) / channels
}

/// Expand one value per frame into the interleaved buffer: slot `i`
/// belongs to frame `i / channels` and receives that frame's value.
pub fn fill_frames<T: Copy>(values: &Vec<T>, channels: usize, out_len: usize) -> (out: Vec<T>)
    requires
        channels >= 1,
        values.len() == frame_count(out_len as int, channels as int),
    ensures
        out.len() == out_len,
        forall|i: int| 0 <= i < out_len ==> #[trigger] out@[i] == values@[i / (channels as int)],
{
    proof {
        // One more than the frames that the first out_len - 1 slots span.
        lemma_hoist_over_denominator(out_len - 1, 1, channels as nat);
        assert(frame_count(out_len as int, channels as int)
            == (out_len - 1) / (channels as int) + 1);
    }
    let mut out: Vec<T> = Vec::new();
    let mut i: usize = 0;
    while i < out_len
        invariant
            channels >= 1,
            i <= out_len,
            values.len() == frame_count(out_len as int, channels as int),
            values.len() == (out_len - 1) / (channels as int) + 1 || out_len == 0,
            out.len() == i,
            forall|j: int| 0 <= j < i ==> #[trigger] out@[j] == values@[j / (channels as int)],
        decreases out_len - i,
    {
        proof {
            lemma_div_is_ordered(i as int, out_len - 1, channels as int);
        }
        let v = values[i / channels];
        out.push(v);
        i = i + 1;
    }
    out
}

/// Within one frame every slot is identical: slots `fr * channels + c1` and
/// `fr * channels + c2` of a buffer written as `fill_frames` writes it hold
/// the same value.
pub proof fn lemma_frame_slots_identical<T>(
    out: Seq<T>,
    values: Seq<T>,
    channels: int,
    fr: int,
    c1: int,
    c2: int,
)
    requires
        channels >= 1,
        forall|i: int| 0 <= i < out.len() ==> #[trigger] out[i] == values[i / channels],
        0 <= fr,
        0 <= c1 < channels,
        0 <= c2 < channels,
        fr * channels + c1 < out.len(),
        fr * channels + c2 < out.len(),
    ensures
        out[fr * channels + c1] == out[fr * channels + c2],
{
    lemma_div_multiples_vanish_fancy(fr, c1, channels);
    lemma_div_multiples_vanish_fancy(fr, c2, channels);
    assert(fr * channels == channels * fr) by {
        vstd::arithmetic::mul::lemma_mul_is_commutative(fr, channels);
    }
    assert((fr * channels + c1) / channels == fr);
    assert((fr * channels + c2) / channels == fr);
}

} // verus!
