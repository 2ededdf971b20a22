use vstd::prelude::*;

verus! {

/// A point in time, in milliseconds since the Unix epoch (UTC).
pub type Timestamp = u64;

/// Milliseconds in one minute.
pub const MINUTE_MILLIS: u64 = 60_000;

/// Milliseconds in one day.
pub const DAY_MILLIS: u64 = 86_400_000;

/// `n / d` rounded to the nearest integer, halves away from zero.
pub open spec fn round_div(n: nat, d: nat) -> nat
    recommends
        d > 0,
{
    if 2 * (n % d) >= d {
        n / d + 1
    } else {
        n / d
    }
}

/// A non-negative percentage held exactly, as `numerator / denominator`.
#[derive(Clone, Copy, Debug, PartialEq, Eq, Structural)]
pub struct Percentage {
    pub numerator: u128,
    pub denominator: u128,
}

impl Percentage {
    /// A percentage is well formed when its denominator is not zero.
    pub open spec fn wf(self) -> bool {
        self.denominator > 0
    }

    /// The percentage rounded to the nearest whole unit.
    pub open spec fn spec_rounded(self) -> nat {
        round_div(self.numerator as nat, self.denominator as nat)
    }

    /// The whole percentage `n`.
    pub fn whole(n: u64) -> (r: Percentage)
        ensures
            r.numerator == n,
            r.denominator == 1,
    {
        Percentage { numerator: n as u128, denominator: 1 }
    }

    /// The rounded percentage as it is stored: saturated at `u64::MAX`.
    pub open spec fn spec_stored(self) -> u64 {
        if self.spec_rounded() <= u64::MAX {
            self.spec_rounded() as u64
        } else {
            u64::MAX
        }
    }

    /// Rounds to the nearest whole percentage (halves away from zero),
    /// saturating at `u64::MAX`.
    pub fn rounded(&self) -> (r: u64)
        requires
            self.wf(),
        ensures
            r == self.spec_stored(),
    {
        let n = self.numerator;
        let d = self.denominator;
        let q = n / d;
        let rem = n % d;
        let v: u128 = if rem >= d - rem {
            assert(d >= 2);
            assert(q <= n / 2) by {
                vstd::arithmetic::div_mod::lemma_div_is_ordered_by_denominator(n as int, 2, d as int);
            }
            q + 1
        } else {
            q
        };
        if v > u64::MAX as u128 {
            u64::MAX
        } else {
            v as u64
        }
    }
}

/// An instantaneous CPU reading.
#[derive(Clone, Copy, Debug, PartialEq, Eq, Structural)]
pub struct CpuUsage {
    pub percentage: Percentage,
}

/// An instantaneous memory reading, in bytes. Its percentage is derived from
/// the two amounts and never held apart from them.
#[derive(Clone, Copy, Debug, PartialEq, Eq, Structural)]
pub struct MemoryUsage {
    pub total: u64,
    pub used: u64,
}

/// `used / total * 100`; a zero total reads as zero percent.
pub open spec fn memory_percentage(total: u64, used: u64) -> Percentage {
    if total == 0 {
        Percentage { numerator: 0, denominator: 1 }
    } else {
        Percentage { numerator: (used * 100) as u128, denominator: total as u128 }
    }
}

impl MemoryUsage {
    /// The share of `total` that is `used`, in percent.
    pub fn percentage(&self) -> (r: Percentage)
        ensures
            r == memory_percentage(self.total, self.used),
            r.wf(),
    {
        if self.total == 0 {
            Percentage { numerator: 0, denominator: 1 }
        } else {
            Percentage { numerator: self.used as u128 * 100, denominator: self.total as u128 }
        }
    }
}

/// A stored or aggregated CPU reading with its time.
#[derive(Clone, Copy, Debug, PartialEq, Eq, Structural)]
pub struct CpuUsageDataPoint {
    pub timestamp: Timestamp,
    pub percentage: Percentage,
}

/// A stored or aggregated memory reading with its time.
#[derive(Clone, Copy, Debug, PartialEq, Eq, Structural)]
pub struct MemoryUsageDataPoint {
    pub timestamp: Timestamp,
    pub total: u64,
    pub used: u64,
    pub percentage: Percentage,
}

/// A downsampling granularity. Each one names the width of its time buckets
/// and the look-back window of an interval query; the two are the same span.
#[derive(Clone, Copy, Debug, PartialEq, Eq, Structural)]
pub enum Interval {
    Minute5,
    Hour,
    Day,
    Week,
    Day30,
}

/// The span of an interval in milliseconds.
pub open spec fn interval_millis(interval: Interval) -> nat {
    match interval {
        Interval::Minute5 => (5 * MINUTE_MILLIS) as nat,
        Interval::Hour => (60 * MINUTE_MILLIS) as nat,
        Interval::Day => DAY_MILLIS as nat,
        Interval::Week => (7 * DAY_MILLIS) as nat,
        Interval::Day30 => (30 * DAY_MILLIS) as nat,
    }
}

/// The start of the bucket of width `width` that holds `ts`; buckets are
/// aligned on the epoch.
pub open spec fn bucket_start(ts: int, width: int) -> int
    recommends
        width > 0,
{
    ts - ts % width
}

impl Interval {
    /// The name of the bucket column that this interval groups by.
    pub fn to_group_column_name(&self) -> (r: &'static str)
        ensures
            r@ == match self {
                Interval::Minute5 => "timestamp_5m"@,
                Interval::Hour => "timestamp_1h"@,
                Interval::Day => "timestamp_1d"@,
                Interval::Week => "timestamp_1w"@,
                Interval::Day30 => "timestamp_30d"@,
            },
    {
        match self {
            Interval::Minute5 => "timestamp_5m",
            Interval::Hour => "timestamp_1h",
            Interval::Day => "timestamp_1d",
            Interval::Week => "timestamp_1w",
            Interval::Day30 => "timestamp_30d",
        }
    }

    /// The span of this interval in milliseconds: both the bucket width and
    /// the look-back window of an interval query.
    pub fn to_duration(&self) -> (r: u64)
        ensures
            r == interval_millis(*self),
            r > 0,
    {
        match self {
            Interval::Minute5 => 5 * MINUTE_MILLIS,
            Interval::Hour => 60 * MINUTE_MILLIS,
            Interval::Day => DAY_MILLIS,
            Interval::Week => 7 * DAY_MILLIS,
            Interval::Day30 => 30 * DAY_MILLIS,
        }
    }
}

} // verus!
