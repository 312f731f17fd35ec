//! The estimate of the round-trip time, from which the time to wait
//! before a resend is taken.
//!
//! Times are whole milliseconds. Each sample moves the estimate an eighth
//! of the way towards it, and the estimate of the deviation an eighth of
//! the way towards the distance between sample and estimate.

use vstd::prelude::*;

verus! {

/// The estimate of the round-trip time and of its deviation.
#[derive(Clone, Copy, PartialEq, Eq, Debug, Structural)]
pub struct RttEstimator {
    /// The smoothed round-trip time, in milliseconds.
    pub rtt_millis: u32,
    /// The smoothed deviation of the round-trip time, in milliseconds.
    pub deviation_millis: u32,
    /// The shortest time to wait before a resend.
    pub min_timeout_millis: u32,
    /// The longest time to wait before a resend.
    pub max_timeout_millis: u32,
}

/// A value that has moved an eighth of the way towards a sample.
pub open spec fn smoothed(value: u32, sample: u32) -> u32 {
    ((7 * value + sample) / 8) as u32
}

/// The distance between two values.
pub open spec fn distance(a: u32, b: u32) -> u32 {
    if a >= b {
        (a - b) as u32
    } else {
        (b - a) as u32
    }
}

/// The estimate after a sample of the round-trip time.
pub open spec fn after_sample(estimate: RttEstimator, sample: u32) -> RttEstimator {
    RttEstimator {
        rtt_millis: smoothed(estimate.rtt_millis, sample),
        deviation_millis: smoothed(
            estimate.deviation_millis,
            distance(sample, estimate.rtt_millis),
        ),
        ..estimate
    }
}

/// The time to wait before a resend: the round-trip time and four times
/// its deviation, but no less than the minimum and no more than the
/// maximum; where the two cross, the minimum counts.
pub open spec fn spec_resend_timeout(estimate: RttEstimator) -> u32 {
    let raw = estimate.rtt_millis + 4 * estimate.deviation_millis;
    if raw <= estimate.min_timeout_millis {
        estimate.min_timeout_millis
    } else if raw >= estimate.max_timeout_millis {
        if estimate.max_timeout_millis >= estimate.min_timeout_millis {
            estimate.max_timeout_millis
        } else {
            estimate.min_timeout_millis
        }
    } else {
        raw as u32
    }
}

impl RttEstimator {
    /// An estimate that starts at `rtt_millis`, with no deviation.
    pub fn new(rtt_millis: u32, min_timeout_millis: u32, max_timeout_millis: u32) -> (estimate:
        Self)
        ensures
            estimate == (RttEstimator {
                rtt_millis,
                deviation_millis: 0,
                min_timeout_millis,
                max_timeout_millis,
            }),
    {
        RttEstimator { rtt_millis, deviation_millis: 0, min_timeout_millis, max_timeout_millis }
    }

    /// Takes a sample of the round-trip time.
    pub fn sample(&mut self, sample_millis: u32)
        ensures
            *final(self) == after_sample(*old(self), sample_millis),
    {
        let gap: u32 = if sample_millis >= self.rtt_millis {
            sample_millis - self.rtt_millis
        } else {
            self.rtt_millis - sample_millis
        };
        let rtt: u64 = (7 * (self.rtt_millis as u64) + sample_millis as u64) / 8;
        let deviation: u64 = (7 * (self.deviation_millis as u64) + gap as u64) / 8;
        self.rtt_millis = rtt as u32;
        self.deviation_millis = deviation as u32;
    }

    /// The time to wait before a resend.
    pub fn resend_timeout(&self) -> (timeout: u32)
        ensures
            timeout == spec_resend_timeout(*self),
    {
        let raw: u64 = self.rtt_millis as u64 + 4 * (self.deviation_millis as u64);
        if raw <= self.min_timeout_millis as u64 {
            self.min_timeout_millis
        } else if raw >= self.max_timeout_millis as u64 {
            if self.max_timeout_millis >= self.min_timeout_millis {
                self.max_timeout_millis
            } else {
                self.min_timeout_millis
            }
        } else {
            raw as u32
        }
    }
}

/// The time to wait before a resend lies between the minimum and the
/// maximum, where the minimum is no more than the maximum.
pub proof fn lemma_resend_timeout_bounds(estimate: RttEstimator)
    requires
        estimate.min_timeout_millis <= estimate.max_timeout_millis,
    ensures
        estimate.min_timeout_millis <= spec_resend_timeout(estimate) <= estimate.max_timeout_millis,
{
}

/// A sample keeps the estimate between the old estimate and the sample.
pub proof fn lemma_sample_moves_towards(estimate: RttEstimator, sample: u32)
    ensures
        estimate.rtt_millis <= sample ==> estimate.rtt_millis <= after_sample(
            estimate,
            sample,
        ).rtt_millis <= sample,
        estimate.rtt_millis >= sample ==> sample <= after_sample(estimate, sample).rtt_millis
            <= estimate.rtt_millis,
{
}

} // verus!
