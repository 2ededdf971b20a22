use vstd::prelude::*;
use vstd::utf8::encode_utf8;

use crate::types::{
    CpuUsage, CpuUsageDataPoint, Interval, MemoryUsage, MemoryUsageDataPoint, Percentage,
    Timestamp, bucket_start, interval_millis, memory_percentage,
};

verus! {

/// One stored sample: the CPU and memory reading of one subject at one time,
/// percentages rounded to whole units. The subject is the host when
/// `container` is `None`, else the container of that key.
#[derive(Debug)]
pub struct UsageRow {
    pub timestamp: Timestamp,
    pub container: Option<String>,
    pub cpu_percentage: u64,
    pub memory_total: u64,
    pub memory_used: u64,
    pub memory_percentage: u64,
}

/// The row that an insert of these readings stores.
pub open spec fn row_of(
    timestamp: Timestamp,
    cpu_usage: CpuUsage,
    memory_usage: MemoryUsage,
    container: Option<String>,
) -> UsageRow {
    UsageRow {
        timestamp,
        container,
        cpu_percentage: cpu_usage.percentage.spec_stored(),
        memory_total: memory_usage.total,
        memory_used: memory_usage.used,
        memory_percentage: memory_percentage(memory_usage.total, memory_usage.used).spec_stored(),
    }
}

/// Rows are kept in non-decreasing time order.
pub open spec fn is_time_ordered(rows: Seq<UsageRow>) -> bool {
    forall|i: int, j: int| 0 <= i <= j < rows.len() ==> rows[i].timestamp <= rows[j].timestamp
}

/// Exact subject match: both the host, or both containers with equal keys.
pub open spec fn subject_is(key: Option<String>, container: Option<String>) -> bool {
    match (key, container) {
        (None, None) => true,
        (Some(k), Some(c)) => k@ == c@,
        _ => false,
    }
}

/// Prefix subject match: both the host, or a container whose key begins
/// with the given (possibly abbreviated) key.
pub open spec fn subject_has_prefix(key: Option<String>, container: Option<String>) -> bool {
    match (key, container) {
        (None, None) => true,
        (Some(k), Some(c)) => encode_utf8(k@).is_prefix_of(encode_utf8(c@)),
        _ => false,
    }
}

/// Where a row of time `ts` goes: after every row whose time is at most `ts`.
pub open spec fn insert_position(rows: Seq<UsageRow>, ts: Timestamp) -> nat
    decreases rows.len(),
{
    if rows.len() == 0 {
        0
    } else if rows.last().timestamp <= ts {
        rows.len()
    } else {
        insert_position(rows.drop_last(), ts)
    }
}

/// The rows after `row` has been inserted.
pub open spec fn inserted(rows: Seq<UsageRow>, row: UsageRow) -> Seq<UsageRow> {
    rows.insert(insert_position(rows, row.timestamp) as int, row)
}

/// The latest row, in time order, whose subject has the key as a prefix.
pub open spec fn last_row(rows: Seq<UsageRow>, key: Option<String>) -> Option<UsageRow>
    decreases rows.len(),
{
    if rows.len() == 0 {
        None
    } else if subject_has_prefix(key, rows.last().container) {
        Some(rows.last())
    } else {
        last_row(rows.drop_last(), key)
    }
}

/// The rows of exactly this subject whose time lies in `[from, to]`, in
/// stored order.
pub open spec fn history_rows(rows: Seq<UsageRow>, key: Option<String>, from: int, to: int) -> Seq<
    UsageRow,
>
    decreases rows.len(),
{
    if rows.len() == 0 {
        Seq::empty()
    } else {
        let rest = history_rows(rows.drop_last(), key, from, to);
        let r = rows.last();
        if subject_is(key, r.container) && from <= r.timestamp <= to {
            rest.push(r)
        } else {
            rest
        }
    }
}

/// The CPU data point of a stored row.
pub open spec fn cpu_point(row: UsageRow) -> CpuUsageDataPoint {
    CpuUsageDataPoint {
        timestamp: row.timestamp,
        percentage: Percentage { numerator: row.cpu_percentage as u128, denominator: 1 },
    }
}

/// The memory data point of a stored row.
pub open spec fn memory_point(row: UsageRow) -> MemoryUsageDataPoint {
    MemoryUsageDataPoint {
        timestamp: row.timestamp,
        total: row.memory_total,
        used: row.memory_used,
        percentage: Percentage { numerator: row.memory_percentage as u128, denominator: 1 },
    }
}

/// The answer to a latest-CPU query.
pub open spec fn last_cpu(rows: Seq<UsageRow>, key: Option<String>) -> Option<CpuUsageDataPoint> {
    match last_row(rows, key) {
        Some(r) => Some(cpu_point(r)),
        None => None,
    }
}

/// The answer to a latest-memory query.
pub open spec fn last_memory(rows: Seq<UsageRow>, key: Option<String>) -> Option<
    MemoryUsageDataPoint,
> {
    match last_row(rows, key) {
        Some(r) => Some(memory_point(r)),
        None => None,
    }
}

/// Where a history query's window begins: the epoch when `from` is omitted.
pub open spec fn history_from(from: Option<Timestamp>) -> int {
    match from {
        Some(f) => f as int,
        None => 0,
    }
}

/// Where a history query's window ends: `now` when `to` is omitted.
pub open spec fn history_to(to: Option<Timestamp>, now: Timestamp) -> int {
    match to {
        Some(t) => t as int,
        None => now as int,
    }
}

/// The answer to a CPU history query.
pub open spec fn cpu_history(
    rows: Seq<UsageRow>,
    key: Option<String>,
    from: Option<Timestamp>,
    to: Option<Timestamp>,
    now: Timestamp,
) -> Seq<CpuUsageDataPoint> {
    history_rows(rows, key, history_from(from), history_to(to, now)).map_values(
        |r: UsageRow| cpu_point(r),
    )
}

/// The answer to a memory history query.
pub open spec fn memory_history(
    rows: Seq<UsageRow>,
    key: Option<String>,
    from: Option<Timestamp>,
    to: Option<Timestamp>,
    now: Timestamp,
) -> Seq<MemoryUsageDataPoint> {
    history_rows(rows, key, history_from(from), history_to(to, now)).map_values(
        |r: UsageRow| memory_point(r),
    )
}

/// The running totals of one time bucket.
pub struct BucketSum {
    pub start: int,
    pub count: nat,
    pub cpu: nat,
    pub memory_total: nat,
    pub memory_used: nat,
    pub memory_percentage: nat,
}

/// A bucket that holds one row.
pub open spec fn first_in_bucket(start: int, r: UsageRow) -> BucketSum {
    BucketSum {
        start,
        count: 1,
        cpu: r.cpu_percentage as nat,
        memory_total: r.memory_total as nat,
        memory_used: r.memory_used as nat,
        memory_percentage: r.memory_percentage as nat,
    }
}

/// A bucket with one more row.
pub open spec fn add_to_bucket(b: BucketSum, r: UsageRow) -> BucketSum {
    BucketSum {
        start: b.start,
        count: b.count + 1,
        cpu: b.cpu + r.cpu_percentage as nat,
        memory_total: b.memory_total + r.memory_total as nat,
        memory_used: b.memory_used + r.memory_used as nat,
        memory_percentage: b.memory_percentage + r.memory_percentage as nat,
    }
}

/// Groups time-ordered rows into buckets of the given width, in order of
/// bucket start; only buckets that hold a row appear.
pub open spec fn bucket_sums(rows: Seq<UsageRow>, width: int) -> Seq<BucketSum>
    decreases rows.len(),
{
    if rows.len() == 0 {
        Seq::empty()
    } else {
        let prev = bucket_sums(rows.drop_last(), width);
        let r = rows.last();
        let k = bucket_start(r.timestamp as int, width);
        if prev.len() > 0 && prev.last().start == k {
            prev.update(prev.len() - 1, add_to_bucket(prev.last(), r))
        } else {
            prev.push(first_in_bucket(k, r))
        }
    }
}

/// The window `[now - span, now]` of an interval query (clamped at the epoch).
pub open spec fn interval_from(interval: Interval, now: Timestamp) -> int {
    if now >= interval_millis(interval) {
        now - interval_millis(interval)
    } else {
        0
    }
}

/// The buckets of an interval query: the subject's rows of the window,
/// grouped by the interval's width.
pub open spec fn interval_buckets(
    rows: Seq<UsageRow>,
    key: Option<String>,
    interval: Interval,
    now: Timestamp,
) -> Seq<BucketSum> {
    bucket_sums(
        history_rows(rows, key, interval_from(interval, now), now as int),
        interval_millis(interval) as int,
    )
}

/// A bucket's CPU data point: the mean of its percentages, at its start.
pub open spec fn cpu_bucket_point(b: BucketSum) -> CpuUsageDataPoint {
    CpuUsageDataPoint {
        timestamp: b.start as u64,
        percentage: Percentage { numerator: b.cpu as u128, denominator: b.count as u128 },
    }
}

/// A bucket's memory data point: the means of its amounts (rounded down)
/// and of its percentages, at its start.
pub open spec fn memory_bucket_point(b: BucketSum) -> MemoryUsageDataPoint {
    MemoryUsageDataPoint {
        timestamp: b.start as u64,
        total: (b.memory_total / b.count) as u64,
        used: (b.memory_used / b.count) as u64,
        percentage: Percentage {
            numerator: b.memory_percentage as u128,
            denominator: b.count as u128,
        },
    }
}

/// The answer to a CPU interval query.
pub open spec fn cpu_interval(
    rows: Seq<UsageRow>,
    key: Option<String>,
    interval: Interval,
    now: Timestamp,
) -> Seq<CpuUsageDataPoint> {
    interval_buckets(rows, key, interval, now).map_values(|b: BucketSum| cpu_bucket_point(b))
}

/// The answer to a memory interval query.
pub open spec fn memory_interval(
    rows: Seq<UsageRow>,
    key: Option<String>,
    interval: Interval,
    now: Timestamp,
) -> Seq<MemoryUsageDataPoint> {
    interval_buckets(rows, key, interval, now).map_values(|b: BucketSum| memory_bucket_point(b))
}

/// Exact running totals of one bucket.
#[derive(Clone, Copy)]
struct BucketTotals {
    start: u64,
    count: u128,
    cpu: u128,
    memory_total: u128,
    memory_used: u128,
    memory_percentage: u128,
}

impl View for BucketTotals {
    type V = BucketSum;

    closed spec fn view(&self) -> BucketSum {
        BucketSum {
            start: self.start as int,
            count: self.count as nat,
            cpu: self.cpu as nat,
            memory_total: self.memory_total as nat,
            memory_used: self.memory_used as nat,
            memory_percentage: self.memory_percentage as nat,
        }
    }
}

impl BucketTotals {
    /// The count is at most `limit`, and the totals fit.
    spec fn bounded(self, limit: int) -> bool {
        &&& self.count <= limit
        &&& self.fits()
    }

    /// The count is positive and each total is at most `count` values of `u64`.
    spec fn fits(self) -> bool {
        &&& 1 <= self.count
        &&& self.cpu <= self.count * u64::MAX
        &&& self.memory_total <= self.count * u64::MAX
        &&& self.memory_used <= self.count * u64::MAX
        &&& self.memory_percentage <= self.count * u64::MAX
    }
}

proof fn lemma_total_step(count: int, sum: int, v: int)
    requires
        0 <= count < 0x1_0000_0000_0000_0000,
        0 <= sum <= count * u64::MAX,
        0 <= v <= u64::MAX,
    ensures
        sum + v <= (count + 1) * u64::MAX,
        (count + 1) * u64::MAX <= u128::MAX,
{
    assert((count + 1) * u64::MAX == count * u64::MAX + u64::MAX) by (nonlinear_arith);
    assert((count + 1) * u64::MAX <= 0x1_0000_0000_0000_0000 * u64::MAX) by (nonlinear_arith)
        requires
            count + 1 <= 0x1_0000_0000_0000_0000,
    ;
}

proof fn lemma_mean_fits(count: int, sum: int)
    requires
        1 <= count,
        0 <= sum <= count * u64::MAX,
    ensures
        sum / count <= u64::MAX,
{
    vstd::arithmetic::div_mod::lemma_div_is_ordered(sum, count * u64::MAX, count);
    vstd::arithmetic::div_mod::lemma_div_multiples_vanish(u64::MAX as int, count);
}

/// The row that stores these readings: percentages rounded to whole units.
pub fn usage_row(
    timestamp: Timestamp,
    memory_usage: MemoryUsage,
    cpu_usage: CpuUsage,
    container: Option<String>,
) -> (r: UsageRow)
    requires
        cpu_usage.percentage.wf(),
    ensures
        r == row_of(timestamp, cpu_usage, memory_usage, container),
{
    UsageRow {
        timestamp,
        container,
        cpu_percentage: cpu_usage.percentage.rounded(),
        memory_total: memory_usage.total,
        memory_used: memory_usage.used,
        memory_percentage: memory_usage.percentage().rounded(),
    }
}

impl UsageRow {
    /// A copy of this row.
    pub fn duplicate(&self) -> (r: UsageRow)
        ensures
            r == *self,
    {
        UsageRow {
            timestamp: self.timestamp,
            container: match &self.container {
                Some(c) => Some(c.clone()),
                None => None,
            },
            cpu_percentage: self.cpu_percentage,
            memory_total: self.memory_total,
            memory_used: self.memory_used,
            memory_percentage: self.memory_percentage,
        }
    }
}

/// Whether `s` begins with `prefix`, byte for byte.
fn starts_with(s: &str, prefix: &str) -> (r: bool)
    ensures
        r == encode_utf8(prefix@).is_prefix_of(encode_utf8(s@)),
{
    let a = prefix.as_bytes();
    let b = s.as_bytes();
    if a.len() > b.len() {
        return false;
    }
    let mut i: usize = 0;
    while i < a.len()
        invariant
            a@ == encode_utf8(prefix@),
            b@ == encode_utf8(s@),
            a@.len() <= b@.len(),
            i <= a@.len(),
            forall|j: int| 0 <= j < i ==> a@[j] == b@[j],
        decreases a@.len() - i,
    {
        if a[i] != b[i] {
            return false;
        }
        i += 1;
    }
    assert(a@ =~= b@.subrange(0, a@.len() as int));
    true
}

fn subject_is_exec(key: &Option<String>, container: &Option<String>) -> (r: bool)
    ensures
        r == subject_is(*key, *container),
{
    match (key, container) {
        (None, None) => true,
        (Some(k), Some(c)) => *k == *c,
        _ => false,
    }
}

fn subject_has_prefix_exec(key: &Option<String>, container: &Option<String>) -> (r: bool)
    ensures
        r == subject_has_prefix(*key, *container),
{
    match (key, container) {
        (None, None) => true,
        (Some(k), Some(c)) => starts_with(c.as_str(), k.as_str()),
        _ => false,
    }
}

/// The time-series store: every sample ever inserted, in time order.
pub struct DbManager {
    rows: Vec<UsageRow>,
}

impl View for DbManager {
    type V = Seq<UsageRow>;

    closed spec fn view(&self) -> Seq<UsageRow> {
        self.rows@
    }
}

impl DbManager {
    #[verifier::type_invariant]
    spec fn inv(&self) -> bool {
        is_time_ordered(self.rows@)
    }

    /// An empty store.
    pub fn new() -> (r: DbManager)
        ensures
            r@ == Seq::<UsageRow>::empty(),
    {
        DbManager { rows: Vec::new() }
    }

    /// Stores one sample of a subject; percentages are rounded to whole units.
    pub fn insert_resource_usage(
        &mut self,
        timestamp: Timestamp,
        memory_usage: MemoryUsage,
        cpu_usage: CpuUsage,
        container: Option<String>,
    )
        requires
            cpu_usage.percentage.wf(),
        ensures
            final(self)@ == inserted(old(self)@, row_of(timestamp, cpu_usage, memory_usage, container)),
            is_time_ordered(old(self)@),
            is_time_ordered(final(self)@),
    {
        let row = usage_row(timestamp, memory_usage, cpu_usage, container);
        self.insert_row(row);
    }

    /// Stores one row, after every stored row that is not later than it.
    pub fn insert_row(&mut self, row: UsageRow)
        ensures
            final(self)@ == inserted(old(self)@, row),
            is_time_ordered(old(self)@),
            is_time_ordered(final(self)@),
    {
        proof {
            use_type_invariant(&*self);
        }
        let timestamp = row.timestamp;
        let mut rows: Vec<UsageRow> = Vec::new();
        std::mem::swap(&mut rows, &mut self.rows);
        let ghost old_rows = rows@;
        let mut i: usize = rows.len();
        assert(rows@.take(i as int) =~= rows@);
        while i > 0 && rows[i - 1].timestamp > timestamp
            invariant
                rows@ == old_rows,
                i <= rows@.len(),
                insert_position(rows@, timestamp) == insert_position(rows@.take(i as int), timestamp),
                forall|k: int| i <= k < rows@.len() ==> rows@[k].timestamp > timestamp,
            decreases i,
        {
            assert(rows@.take(i as int).drop_last() =~= rows@.take(i - 1));
            i -= 1;
        }
        proof {
            if i > 0 {
                assert(rows@.take(i as int).last() == rows@[i - 1]);
            }
            lemma_insert_keeps_order(old_rows, row, i as int);
        }
        rows.insert(i, row);
        self.rows = rows;
    }

    /// The most recent CPU reading of the subject; a container key may be
    /// abbreviated to a prefix.
    pub fn get_last_cpu_usage(&self, container: Option<String>) -> (r: Option<CpuUsageDataPoint>)
        ensures
            r == last_cpu(self@, container),
            is_time_ordered(self@),
    {
        proof {
            use_type_invariant(self);
        }
        match self.last_index(&container) {
            Some(i) => {
                let row = &self.rows[i];
                Some(
                    CpuUsageDataPoint {
                        timestamp: row.timestamp,
                        percentage: Percentage::whole(row.cpu_percentage),
                    },
                )
            },
            None => None,
        }
    }

    /// The most recent memory reading of the subject; a container key may be
    /// abbreviated to a prefix.
    pub fn get_last_memory_usage(&self, container: Option<String>) -> (r: Option<
        MemoryUsageDataPoint,
    >)
        ensures
            r == last_memory(self@, container),
            is_time_ordered(self@),
    {
        proof {
            use_type_invariant(self);
        }
        match self.last_index(&container) {
            Some(i) => {
                let row = &self.rows[i];
                Some(
                    MemoryUsageDataPoint {
                        timestamp: row.timestamp,
                        total: row.memory_total,
                        used: row.memory_used,
                        percentage: Percentage::whole(row.memory_percentage),
                    },
                )
            },
            None => None,
        }
    }

    /// The CPU readings of exactly this subject within `[from, to]`, in time
    /// order; `from` defaults to the epoch and `to` to `now`.
    pub fn get_cpu_usage_history(
        &self,
        from: Option<Timestamp>,
        to: Option<Timestamp>,
        container: Option<String>,
        now: Timestamp,
    ) -> (r: Vec<CpuUsageDataPoint>)
        ensures
            r@ == cpu_history(self@, container, from, to, now),
            is_time_ordered(self@),
    {
        proof {
            use_type_invariant(self);
        }
        let lo = from.unwrap_or(0);
        let hi = to.unwrap_or(now);
        let sel = self.select(&container, lo, hi);
        let ghost hist = history_rows(self@, container, lo as int, hi as int);
        assert(lo as int == history_from(from) && hi as int == history_to(to, now));
        let mut out: Vec<CpuUsageDataPoint> = Vec::new();
        let mut i: usize = 0;
        while i < sel.len()
            invariant
                sel@.len() == hist.len(),
                forall|j: int| 0 <= j < sel@.len() ==> #[trigger] sel@[j] < self.rows@.len() && self.rows@[sel@[j] as int] == hist[j],
                i <= sel@.len(),
                out@ =~= hist.take(i as int).map_values(|r: UsageRow| cpu_point(r)),
            decreases sel@.len() - i,
        {
            let row = &self.rows[sel[i]];
            out.push(
                CpuUsageDataPoint {
                    timestamp: row.timestamp,
                    percentage: Percentage::whole(row.cpu_percentage),
                },
            );
            assert(hist.take(i + 1) =~= hist.take(i as int).push(hist[i as int]));
            i += 1;
        }
        assert(hist.take(i as int) =~= hist);
        out
    }

    /// The memory readings of exactly this subject within `[from, to]`, in
    /// time order; `from` defaults to the epoch and `to` to `now`.
    pub fn get_memory_usage_history(
        &self,
        from: Option<Timestamp>,
        to: Option<Timestamp>,
        container: Option<String>,
        now: Timestamp,
    ) -> (r: Vec<MemoryUsageDataPoint>)
        ensures
            r@ == memory_history(self@, container, from, to, now),
            is_time_ordered(self@),
    {
        proof {
            use_type_invariant(self);
        }
        let lo = from.unwrap_or(0);
        let hi = to.unwrap_or(now);
        let sel = self.select(&container, lo, hi);
        let ghost hist = history_rows(self@, container, lo as int, hi as int);
        assert(lo as int == history_from(from) && hi as int == history_to(to, now));
        let mut out: Vec<MemoryUsageDataPoint> = Vec::new();
        let mut i: usize = 0;
        while i < sel.len()
            invariant
                sel@.len() == hist.len(),
                forall|j: int| 0 <= j < sel@.len() ==> #[trigger] sel@[j] < self.rows@.len() && self.rows@[sel@[j] as int] == hist[j],
                i <= sel@.len(),
                out@ =~= hist.take(i as int).map_values(|r: UsageRow| memory_point(r)),
            decreases sel@.len() - i,
        {
            let row = &self.rows[sel[i]];
            out.push(
                MemoryUsageDataPoint {
                    timestamp: row.timestamp,
                    total: row.memory_total,
                    used: row.memory_used,
                    percentage: Percentage::whole(row.memory_percentage),
                },
            );
            assert(hist.take(i + 1) =~= hist.take(i as int).push(hist[i as int]));
            i += 1;
        }
        assert(hist.take(i as int) =~= hist);
        out
    }

    /// The mean CPU reading of exactly this subject per bucket of the
    /// interval, over the window `[now - span, now]`, in time order; buckets
    /// without rows are left out.
    pub fn get_interval_cpu_usage(
        &self,
        interval: Interval,
        container: Option<String>,
        now: Timestamp,
    ) -> (r: Vec<CpuUsageDataPoint>)
        ensures
            r@ == cpu_interval(self@, container, interval, now),
            is_time_ordered(self@),
    {
        proof {
            use_type_invariant(self);
        }
        let totals = self.bucket_totals(&container, interval, now);
        let ghost sums = interval_buckets(self@, container, interval, now);
        let mut out: Vec<CpuUsageDataPoint> = Vec::new();
        let mut i: usize = 0;
        while i < totals.len()
            invariant
                totals@.len() == sums.len(),
                forall|j: int| 0 <= j < totals@.len() ==> (#[trigger] totals@[j])@ == sums[j],
                forall|j: int| 0 <= j < totals@.len() ==> #[trigger] totals@[j].fits(),
                i <= totals@.len(),
                out@ =~= sums.take(i as int).map_values(|b: BucketSum| cpu_bucket_point(b)),
            decreases totals@.len() - i,
        {
            let t = totals[i];
            assert(t.fits());
            out.push(
                CpuUsageDataPoint {
                    timestamp: t.start,
                    percentage: Percentage { numerator: t.cpu, denominator: t.count },
                },
            );
            assert(sums.take(i + 1) =~= sums.take(i as int).push(sums[i as int]));
            i += 1;
        }
        assert(sums.take(i as int) =~= sums);
        out
    }

    /// The mean memory reading of exactly this subject per bucket of the
    /// interval, over the window `[now - span, now]`, in time order; amounts
    /// are rounded down, buckets without rows are left out.
    pub fn get_interval_memory_usage(
        &self,
        interval: Interval,
        container: Option<String>,
        now: Timestamp,
    ) -> (r: Vec<MemoryUsageDataPoint>)
        ensures
            r@ == memory_interval(self@, container, interval, now),
            is_time_ordered(self@),
    {
        proof {
            use_type_invariant(self);
        }
        let totals = self.bucket_totals(&container, interval, now);
        let ghost sums = interval_buckets(self@, container, interval, now);
        let mut out: Vec<MemoryUsageDataPoint> = Vec::new();
        let mut i: usize = 0;
        while i < totals.len()
            invariant
                totals@.len() == sums.len(),
                forall|j: int| 0 <= j < totals@.len() ==> (#[trigger] totals@[j])@ == sums[j],
                forall|j: int| 0 <= j < totals@.len() ==> #[trigger] totals@[j].fits(),
                i <= totals@.len(),
                out@ =~= sums.take(i as int).map_values(|b: BucketSum| memory_bucket_point(b)),
            decreases totals@.len() - i,
        {
            let t = totals[i];
            assert(t.fits());
            proof {
                lemma_mean_fits(t.count as int, t.memory_total as int);
                lemma_mean_fits(t.count as int, t.memory_used as int);
            }
            out.push(
                MemoryUsageDataPoint {
                    timestamp: t.start,
                    total: (t.memory_total / t.count) as u64,
                    used: (t.memory_used / t.count) as u64,
                    percentage: Percentage { numerator: t.memory_percentage, denominator: t.count },
                },
            );
            assert(sums.take(i + 1) =~= sums.take(i as int).push(sums[i as int]));
            i += 1;
        }
        assert(sums.take(i as int) =~= sums);
        out
    }

    /// The indices of the rows that `history_rows` selects, in order.
    fn select(&self, key: &Option<String>, from: Timestamp, to: Timestamp) -> (r: Vec<usize>)
        ensures
            r@.len() == history_rows(self@, *key, from as int, to as int).len(),
            forall|j: int|
                0 <= j < r@.len() ==> #[trigger] r@[j] < self@.len() && self@[r@[j] as int]
                    == history_rows(self@, *key, from as int, to as int)[j],
    {
        let mut out: Vec<usize> = Vec::new();
        let mut i: usize = 0;
        while i < self.rows.len()
            invariant
                i <= self.rows@.len(),
                out@.len() == history_rows(self.rows@.take(i as int), *key, from as int, to as int).len(),
                forall|j: int|
                    0 <= j < out@.len() ==> #[trigger] out@[j] < i && self.rows@[out@[j] as int]
                        == history_rows(self.rows@.take(i as int), *key, from as int, to as int)[j],
            decreases self.rows@.len() - i,
        {
            let row = &self.rows[i];
            let ghost prev = history_rows(self.rows@.take(i as int), *key, from as int, to as int);
            let ghost next = history_rows(self.rows@.take(i + 1), *key, from as int, to as int);
            assert(self.rows@.take(i + 1).drop_last() =~= self.rows@.take(i as int));
            assert(self.rows@.take(i + 1).last() == self.rows@[i as int]);
            if subject_is_exec(key, &row.container) && from <= row.timestamp && row.timestamp <= to {
                assert(next == prev.push(self.rows@[i as int]));
                out.push(i);
            } else {
                assert(next == prev);
            }
            assert forall|j: int| 0 <= j < out@.len() implies #[trigger] out@[j] < i + 1 && self.rows@[out@[j] as int] == next[j] by {
                if j < prev.len() {
                    assert(prev[j] == next[j]);
                }
            }
            i += 1;
        }
        assert(self.rows@.take(i as int) =~= self.rows@);
        out
    }

    /// The totals of every bucket that `interval_buckets` gives, in order.
    fn bucket_totals(&self, key: &Option<String>, interval: Interval, now: Timestamp) -> (r: Vec<
        BucketTotals,
    >)
        ensures
            r@.len() == interval_buckets(self@, *key, interval, now).len(),
            forall|j: int|
                0 <= j < r@.len() ==> (#[trigger] r@[j])@ == interval_buckets(self@, *key, interval, now)[j],
            forall|j: int| 0 <= j < r@.len() ==> #[trigger] r@[j].fits(),
    {
        let width = interval.to_duration();
        let from = if now >= width { now - width } else { 0 };
        let sel = self.select(key, from, now);
        let ghost hist = history_rows(self@, *key, from as int, now as int);
        let mut out: Vec<BucketTotals> = Vec::new();
        let mut i: usize = 0;
        while i < sel.len()
            invariant
                width == interval_millis(interval),
                width > 0,
                sel@.len() == hist.len(),
                forall|j: int| 0 <= j < sel@.len() ==> #[trigger] sel@[j] < self.rows@.len() && self.rows@[sel@[j] as int] == hist[j],
                i <= sel@.len(),
                out@.len() == bucket_sums(hist.take(i as int), width as int).len(),
                out@.len() <= i,
                forall|j: int|
                    0 <= j < out@.len() ==> (#[trigger] out@[j])@ == bucket_sums(hist.take(i as int), width as int)[j],
                forall|j: int| 0 <= j < out@.len() ==> #[trigger] out@[j].bounded(i as int),
            decreases sel@.len() - i,
        {
            let row = &self.rows[sel[i]];
            let ts = row.timestamp;
            assert(ts % width <= ts) by (nonlinear_arith)
                requires
                    width > 0,
            ;
            let start = ts - ts % width;
            let ghost prev = bucket_sums(hist.take(i as int), width as int);
            proof {
                assert(hist.take(i + 1).drop_last() =~= hist.take(i as int));
                assert(hist.take(i + 1).last() == hist[i as int]);
                assert forall|j: int| 0 <= j < out@.len() implies #[trigger] out@[j].bounded(i + 1) by {
                    assert(out@[j].bounded(i as int));
                }
            }
            let n = out.len();
            if n > 0 && out[n - 1].start == start {
                let b = out[n - 1];
                proof {
                    assert(b.bounded(i as int));
                    lemma_total_step(b.count as int, b.cpu as int, row.cpu_percentage as int);
                    lemma_total_step(b.count as int, b.memory_total as int, row.memory_total as int);
                    lemma_total_step(b.count as int, b.memory_used as int, row.memory_used as int);
                    lemma_total_step(b.count as int, b.memory_percentage as int, row.memory_percentage as int);
                }
                let nb = BucketTotals {
                    start,
                    count: b.count + 1,
                    cpu: b.cpu + row.cpu_percentage as u128,
                    memory_total: b.memory_total + row.memory_total as u128,
                    memory_used: b.memory_used + row.memory_used as u128,
                    memory_percentage: b.memory_percentage + row.memory_percentage as u128,
                };
                out.set(n - 1, nb);
            } else {
                out.push(
                    BucketTotals {
                        start,
                        count: 1,
                        cpu: row.cpu_percentage as u128,
                        memory_total: row.memory_total as u128,
                        memory_used: row.memory_used as u128,
                        memory_percentage: row.memory_percentage as u128,
                    },
                );
            }
            assert(out@.len() == bucket_sums(hist.take(i + 1), width as int).len());
            i += 1;
        }
        assert(hist.take(i as int) =~= hist);
        assert forall|j: int| 0 <= j < out@.len() implies #[trigger] out@[j].fits() by {
            assert(out@[j].bounded(i as int));
        }
        out
    }

    /// The index of the row that `last_row` picks.
    fn last_index(&self, key: &Option<String>) -> (r: Option<usize>)
        ensures
            match r {
                Some(i) => i < self@.len() && last_row(self@, *key) == Some(self@[i as int]),
                None => last_row(self@, *key) is None,
            },
    {
        let mut i: usize = self.rows.len();
        assert(self.rows@.take(i as int) =~= self.rows@);
        while i > 0
            invariant
                i <= self.rows@.len(),
                last_row(self.rows@, *key) == last_row(self.rows@.take(i as int), *key),
            decreases i,
        {
            proof {
                assert(self.rows@.take(i as int).drop_last() =~= self.rows@.take(i - 1));
                assert(self.rows@.take(i as int).last() == self.rows@[i - 1]);
            }
            if subject_has_prefix_exec(key, &self.rows[i - 1].container) {
                return Some(i - 1);
            }
            i -= 1;
        }
        None
    }
}

/// Inserting at the position that `insert_position` gives keeps time order,
/// and that position is the one found by scanning back from the end.
proof fn lemma_insert_keeps_order(rows: Seq<UsageRow>, row: UsageRow, p: int)
    requires
        is_time_ordered(rows),
        0 <= p <= rows.len(),
        p == 0 || rows[p - 1].timestamp <= row.timestamp,
        forall|k: int| p <= k < rows.len() ==> rows[k].timestamp > row.timestamp,
        insert_position(rows, row.timestamp) == insert_position(rows.take(p), row.timestamp),
    ensures
        insert_position(rows, row.timestamp) == p,
        is_time_ordered(rows.insert(p, row)),
{
    if p > 0 {
        assert(rows.take(p).last() == rows[p - 1]);
    }
    let s = rows.insert(p, row);
    assert forall|i: int, j: int| 0 <= i <= j < s.len() implies s[i].timestamp <= s[j].timestamp by {
        if i < p && j > p {
            assert(rows[i].timestamp <= rows[p - 1].timestamp);
        }
    }
}

} // verus!
