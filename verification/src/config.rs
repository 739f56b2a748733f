//! Configuration records: what one run plays, and what the device expects.

use vstd::prelude::*;
use crate::duration::TimeSpan;

verus! {

/// The stream shape reported by the audio device: samples per second and
/// interleaved channels per frame, both positive.
#[derive(Clone, Copy, PartialEq, Eq, Structural, Debug)]
pub struct StreamConfig {
    pub sample_rate: u32,
    pub channels: u16,
}

impl StreamConfig {
    pub open spec fn wf(self) -> bool {
        &&& self.sample_rate >= 1
        &&& self.channels >= 1
    }

    /// Accepts exactly the shapes with a positive rate and channel count.
    pub fn new(sample_rate: u32, channels: u16) -> (r: Option<StreamConfig>)
        ensures
            r is Some <==> (sample_rate >= 1 && channels >= 1),
            r matches Some(c) ==> c.wf() && c.sample_rate == sample_rate && c.channels == channels,
    {
        if sample_rate >= 1 && channels >= 1 {
            Some(StreamConfig { sample_rate, channels })
        } else {
            None
        }
    }
}

/// One run of the generator: the tone frequency in Hz (positive) and how
/// long to play it.
#[derive(Clone, Copy, PartialEq, Eq, Structural, Debug)]
pub struct RunConfig {
    pub frequency: u32,
    pub duration: TimeSpan,
}

impl RunConfig {
    pub open spec fn wf(self) -> bool {
        &&& self.frequency >= 1
        &&& self.duration.wf()
    }

    /// Accepts exactly the positive frequencies.
    pub fn new(frequency: u32, duration: TimeSpan) -> (r: Option<RunConfig>)
        requires
            duration.wf(),
        ensures
            r is Some <==> frequency >= 1,
            r matches Some(c) ==> c.wf() && c.frequency == frequency && c.duration == duration,
    {
        if frequency >= 1 {
            Some(RunConfig { frequency, duration })
        } else {
            None
        }
    }
}

} // verus!
