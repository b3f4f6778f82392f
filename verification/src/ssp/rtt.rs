//! The round-trip estimator of RFC 6298, in fixed point.
//!
//! Times are kept in whole units of 2^-32 milliseconds. Where the smoothing
//! leaves a fraction of a unit, the smoothed time is rounded up and the
//! deviation down: a smoothed time that is positive stays positive, so that
//! 0 keeps meaning "no sample yet".

use vstd::prelude::*;

verus! {

/// One millisecond in the unit of the estimator.
pub const ONE_MS: u128 = 0x1_0000_0000;

/// The largest time that the estimator holds: `u64::MAX` milliseconds.
pub const TIME_LIMIT: u128 = 0xFFFF_FFFF_FFFF_FFFF_0000_0000;

/// The clock granularity `G` of RFC 6298, in milliseconds.
pub const GRANULARITY_MS: u128 = 50;

/// The mathematical content of an `RttEstimator`.
pub struct RttView {
    /// The smoothed round-trip time, in 2^-32 ms; 0 before any sample.
    pub srtt: nat,
    /// The mean deviation of the round-trip time, in 2^-32 ms.
    pub rttvar: nat,
    /// The retransmission timeout, in milliseconds.
    pub rto_ms: u64,
}

/// The estimator before any sample.
pub open spec fn initial_rtt() -> RttView {
    RttView { srtt: 0, rttvar: 0, rto_ms: 1000 }
}

/// A sample in the unit of the estimator.
pub open spec fn in_units(sample_ms: u64) -> nat {
    (sample_ms * 0x1_0000_0000) as nat
}

/// The distance of two times.
pub open spec fn distance(a: nat, b: nat) -> nat {
    if a >= b {
        (a - b) as nat
    } else {
        (b - a) as nat
    }
}

/// The smoothed time after a sample: the sample itself where it is the
/// first, else seven eighths of the old time and one eighth of the sample.
pub open spec fn next_srtt(srtt: nat, sample_ms: u64) -> nat {
    if srtt == 0 {
        in_units(sample_ms)
    } else {
        (7 * srtt + in_units(sample_ms) + 7) / 8
    }
}

/// The deviation after a sample: half the sample where it is the first,
/// else three quarters of the old deviation and one quarter of the distance
/// between the old smoothed time and the sample.
pub open spec fn next_rttvar(srtt: nat, rttvar: nat, sample_ms: u64) -> nat {
    if srtt == 0 {
        in_units(sample_ms) / 2
    } else {
        (3 * rttvar + distance(srtt, in_units(sample_ms))) / 4
    }
}

/// The timeout for a smoothed time and a deviation: the smoothed time plus
/// the larger of `G` and four deviations, in whole milliseconds, kept
/// within 50 and 1000.
pub open spec fn rto_for(srtt: nat, rttvar: nat) -> u64 {
    let margin = if 4 * rttvar > 50 * 0x1_0000_0000 {
        4 * rttvar
    } else {
        50 * 0x1_0000_0000
    };
    let whole = (srtt + margin) / 0x1_0000_0000;
    if whole < 50 {
        50
    } else if whole > 1000 {
        1000
    } else {
        whole as u64
    }
}

/// The estimator after a sample.
pub open spec fn updated(rtt: RttView, sample_ms: u64) -> RttView {
    let srtt = next_srtt(rtt.srtt, sample_ms);
    let rttvar = next_rttvar(rtt.srtt, rtt.rttvar, sample_ms);
    RttView { srtt, rttvar, rto_ms: rto_for(srtt, rttvar) }
}

/// Whether the times are within what the estimator holds, and the timeout
/// within 50 and 1000.
pub open spec fn rtt_wf(rtt: RttView) -> bool {
    &&& rtt.srtt <= TIME_LIMIT
    &&& rtt.rttvar <= TIME_LIMIT
    &&& 50 <= rtt.rto_ms <= 1000
}

/// The timeout is within 50 and 1000 milliseconds after every sample,
/// whatever the samples before it were.
pub proof fn lemma_rto_in_range(rtt: RttView, sample_ms: u64)
    ensures
        50 <= updated(rtt, sample_ms).rto_ms <= 1000,
        50 <= initial_rtt().rto_ms <= 1000,
{
}

/// A sample keeps the estimator within its limits.
pub proof fn lemma_updated_wf(rtt: RttView, sample_ms: u64)
    requires
        rtt_wf(rtt),
    ensures
        rtt_wf(updated(rtt, sample_ms)),
{
    let r = in_units(sample_ms);
    assert(r <= TIME_LIMIT) by (nonlinear_arith)
        requires
            r == sample_ms * 0x1_0000_0000,
            sample_ms <= 0xFFFF_FFFF_FFFF_FFFF,
    ;
}

/// A smoothed time that is positive stays positive, whatever the sample.
pub proof fn lemma_srtt_stays_positive(srtt: nat, sample_ms: u64)
    requires
        srtt > 0,
    ensures
        next_srtt(srtt, sample_ms) > 0,
{
}

/// The first sample is taken as it is, with half of it as the deviation.
pub proof fn lemma_first_sample(sample_ms: u64)
    ensures
        updated(initial_rtt(), sample_ms).srtt == in_units(sample_ms),
        updated(initial_rtt(), sample_ms).rttvar == in_units(sample_ms) / 2,
{
}

/// The smoothed round-trip time, its deviation, and the timeout they give.
pub struct RttEstimator {
    srtt: u128,
    rttvar: u128,
    rto_ms: u64,
}

impl View for RttEstimator {
    type V = RttView;

    closed spec fn view(&self) -> RttView {
        RttView { srtt: self.srtt as nat, rttvar: self.rttvar as nat, rto_ms: self.rto_ms }
    }
}

impl RttEstimator {
    /// An estimator without a sample: the timeout is 1000 ms.
    pub fn new() -> (e: RttEstimator)
        ensures
            e@ == initial_rtt(),
            rtt_wf(e@),
    {
        RttEstimator { srtt: 0, rttvar: 0, rto_ms: 1000 }
    }

    /// Takes one round-trip sample, in milliseconds.
    pub fn update(&mut self, sample_ms: u64)
        requires
            rtt_wf(old(self)@),
        ensures
            final(self)@ == updated(old(self)@, sample_ms),
            rtt_wf(final(self)@),
    {
        proof {
            lemma_updated_wf(self@, sample_ms);
        }
        let r: u128 = (sample_ms as u128) * ONE_MS;
        if self.srtt == 0 {
            self.srtt = r;
            self.rttvar = r / 2;
        } else {
            let d: u128 = if self.srtt >= r {
                self.srtt - r
            } else {
                r - self.srtt
            };
            self.rttvar = (3 * self.rttvar + d) / 4;
            self.srtt = (7 * self.srtt + r + 7) / 8;
        }
        let four: u128 = 4 * self.rttvar;
        let margin: u128 = if four > GRANULARITY_MS * ONE_MS {
            four
        } else {
            GRANULARITY_MS * ONE_MS
        };
        let whole: u128 = (self.srtt + margin) / ONE_MS;
        self.rto_ms = if whole < 50 {
            50
        } else if whole > 1000 {
            1000
        } else {
            whole as u64
        };
    }

    /// The retransmission timeout, in milliseconds.
    pub fn rto_ms(&self) -> (t: u64)
        ensures
            t == self@.rto_ms,
    {
        self.rto_ms
    }

    /// The smoothed round-trip time, in 2^-32 ms; 0 before any sample.
    pub fn srtt(&self) -> (t: u128)
        ensures
            t == self@.srtt,
    {
        self.srtt
    }
}

} // verus!
