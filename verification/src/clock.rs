//! Sample-accurate clock for the audio thread.
use vstd::prelude::*;

verus! {

/// A monotonic sample counter. Increments by `block_size` every callback.
#[derive(Clone, Copy, Debug, Default)]
pub struct SampleClock {
    sample_rate: u32,
    samples: u64,
}

impl SampleClock {
    /// The rate the clock was made with.
    pub closed spec fn rate(self) -> u32 {
        self.sample_rate
    }

    /// The number of samples elapsed.
    pub closed spec fn elapsed(self) -> u64 {
        self.samples
    }

    pub fn new(sample_rate: u32) -> (clock: Self)
        ensures
            clock.rate() == sample_rate,
            clock.elapsed() == 0,
    {
        Self { sample_rate, samples: 0 }
    }

    /// Advance by one block. The counter does not wrap: the caller keeps the total
    /// within `u64`.
    pub fn advance(&mut self, block_size: usize)
        requires
            old(self).elapsed() + block_size <= u64::MAX,
        ensures
            final(self).elapsed() == old(self).elapsed() + block_size,
            final(self).rate() == old(self).rate(),
    {
        self.samples = self.samples + block_size as u64;
    }

    pub fn samples(&self) -> (n: u64)
        ensures
            n == self.elapsed(),
    {
        self.samples
    }

    pub fn sample_rate(&self) -> (r: u32)
        ensures
            r == self.rate(),
    {
        self.sample_rate
    }
}

} // verus!
