use vstd::prelude::*;

verus! {

/// The fixed output sample rate, in samples per second.
pub const SAMPLE_RATE: u32 = 48000;

/// The number of channels of the produced stream.
pub const CHANNELS: u16 = 1;

/// How many samples a tone of `duration_ms` whole milliseconds holds at
/// 48 kHz: round(duration_ms / 1000 * 48000) = 48 * duration_ms, exactly.
pub open spec fn sample_count(duration_ms: int) -> int {
    48 * duration_ms
}

/// The sample clock of one tone: it hands out the sample indices
/// `1 ..= last_sample` in order, then reports exhaustion. The same clock
/// drives a tone of any frequency, silence included; it fixes how many
/// samples the tone holds regardless of what each sample evaluates to.
#[derive(Clone, Copy, Debug)]
pub struct Tone {
    pub num_sample: u64,
    pub last_sample: u64,
}

impl Tone {
    /// A fresh clock for `duration_ms` milliseconds of output: it will hand
    /// out exactly `sample_count(duration_ms)` indices.
    pub fn new(duration_ms: u64) -> (t: Tone)
        requires
            sample_count(duration_ms as int) <= u64::MAX,
        ensures
            t.num_sample == 0,
            t.last_sample == sample_count(duration_ms as int),
    {
        Tone { num_sample: 0, last_sample: 48 * duration_ms }
    }

    /// The next sample index, or `None` once `last_sample` indices have been
    /// handed out. An exhausted clock stays exhausted.
    pub fn next(&mut self) -> (r: Option<u64>)
        ensures
            final(self).last_sample == old(self).last_sample,
            old(self).num_sample < old(self).last_sample ==> {
                &&& final(self).num_sample == old(self).num_sample + 1
                &&& r == Some((old(self).num_sample + 1) as u64)
            },
            old(self).num_sample >= old(self).last_sample ==> {
                &&& *final(self) == *old(self)
                &&& r is None
            },
    {
        if self.num_sample < self.last_sample {
            self.num_sample = self.num_sample + 1;
            Some(self.num_sample)
        } else {
            None
        }
    }

    /// How many indices are still to come.
    pub fn remaining(&self) -> (n: u64)
        ensures
            self.num_sample <= self.last_sample ==> n == self.last_sample - self.num_sample,
            self.num_sample > self.last_sample ==> n == 0,
    {
        if self.num_sample <= self.last_sample {
            self.last_sample - self.num_sample
        } else {
            0
        }
    }
}

} // verus!
