//! What the store guarantees across calls: round trips, the separation of
//! subjects, the shape of history and of interval answers.
use vstd::prelude::*;

use crate::store::{
    BucketSum, UsageRow, add_to_bucket, bucket_sums, first_in_bucket, history_rows,
    insert_position, inserted, interval_buckets, interval_from, is_time_ordered, last_cpu,
    last_memory, last_row, row_of, subject_has_prefix, subject_is,
};
use crate::types::{
    CpuUsage, CpuUsageDataPoint, Interval, MemoryUsage, MemoryUsageDataPoint, Percentage,
    Timestamp, bucket_start, interval_millis, memory_percentage,
};

verus! {

/// In time-ordered rows, the insert position splits the rows into those at
/// or before `ts` and those after it.
pub proof fn lemma_insert_position(rows: Seq<UsageRow>, ts: Timestamp)
    requires
        is_time_ordered(rows),
    ensures
        insert_position(rows, ts) <= rows.len(),
        forall|k: int| 0 <= k < insert_position(rows, ts) ==> rows[k].timestamp <= ts,
        forall|k: int| insert_position(rows, ts) <= k < rows.len() ==> rows[k].timestamp > ts,
    decreases rows.len(),
{
    if rows.len() > 0 {
        let rest = rows.drop_last();
        if rows.last().timestamp > ts {
            lemma_insert_position(rest, ts);
            assert forall|k: int| 0 <= k < insert_position(rows, ts) implies rows[k].timestamp
                <= ts by {
                assert(rows[k] == rest[k]);
            }
            assert forall|k: int| insert_position(rows, ts) <= k < rows.len() implies rows[k].timestamp
                > ts by {
                if k < rest.len() {
                    assert(rows[k] == rest[k]);
                }
            }
        } else {
            assert forall|k: int| 0 <= k < insert_position(rows, ts) implies rows[k].timestamp
                <= ts by {
                assert(rows[k].timestamp <= rows[rows.len() - 1].timestamp);
            }
        }
    }
}

/// Rows past `m` that do not match leave the latest match where it was.
proof fn lemma_last_row_ignores_tail(rows: Seq<UsageRow>, key: Option<String>, m: int)
    requires
        0 <= m <= rows.len(),
        forall|k: int| m <= k < rows.len() ==> !subject_has_prefix(key, #[trigger] rows[k].container),
    ensures
        last_row(rows, key) == last_row(rows.take(m), key),
    decreases rows.len(),
{
    if rows.len() == m {
        assert(rows.take(m) =~= rows);
    } else {
        assert(rows.drop_last().take(m) =~= rows.take(m));
        lemma_last_row_ignores_tail(rows.drop_last(), key, m);
    }
}

/// Inserting a sample and then asking for the latest reading of its subject,
/// under the same key, gives back that sample with its percentages rounded,
/// provided that no stored reading of the subject is later.
pub proof fn lemma_insert_then_get_last(
    rows: Seq<UsageRow>,
    timestamp: Timestamp,
    cpu_usage: CpuUsage,
    memory_usage: MemoryUsage,
    container: Option<String>,
)
    requires
        is_time_ordered(rows),
        forall|i: int|
            0 <= i < rows.len() && subject_has_prefix(container, #[trigger] rows[i].container)
                ==> rows[i].timestamp <= timestamp,
    ensures
        last_cpu(inserted(rows, row_of(timestamp, cpu_usage, memory_usage, container)), container)
            == Some(
            CpuUsageDataPoint {
                timestamp,
                percentage: Percentage {
                    numerator: cpu_usage.percentage.spec_stored() as u128,
                    denominator: 1,
                },
            },
        ),
        last_memory(inserted(rows, row_of(timestamp, cpu_usage, memory_usage, container)), container)
            == Some(
            MemoryUsageDataPoint {
                timestamp,
                total: memory_usage.total,
                used: memory_usage.used,
                percentage: Percentage {
                    numerator: memory_percentage(
                        memory_usage.total,
                        memory_usage.used,
                    ).spec_stored() as u128,
                    denominator: 1,
                },
            },
        ),
{
    let row = row_of(timestamp, cpu_usage, memory_usage, container);
    let p = insert_position(rows, timestamp) as int;
    lemma_insert_position(rows, timestamp);
    let s = rows.insert(p, row);
    assert forall|k: int| p + 1 <= k < s.len() implies !subject_has_prefix(
        container,
        #[trigger] s[k].container,
    ) by {
        assert(s[k] == rows[k - 1]);
    }
    lemma_last_row_ignores_tail(s, container, p + 1);
    assert(s.take(p + 1).last() == row);
    match container {
        Some(k) => {
            let b = vstd::utf8::encode_utf8(k@);
            assert(b.subrange(0, b.len() as int) =~= b);
        },
        None => {},
    }
}

/// The latest-reading answer is the subject's row with the greatest time: a
/// stored row of the subject than which no stored row of the subject is
/// later; there is none exactly when no row of the subject is stored.
pub proof fn lemma_last_is_most_recent(rows: Seq<UsageRow>, key: Option<String>)
    requires
        is_time_ordered(rows),
    ensures
        last_row(rows, key) is None <==> forall|i: int|
            0 <= i < rows.len() ==> !subject_has_prefix(key, #[trigger] rows[i].container),
        last_row(rows, key) matches Some(r) ==> {
            &&& rows.contains(r)
            &&& subject_has_prefix(key, r.container)
            &&& forall|i: int|
                0 <= i < rows.len() && subject_has_prefix(key, #[trigger] rows[i].container)
                    ==> rows[i].timestamp <= r.timestamp
        },
    decreases rows.len(),
{
    if rows.len() > 0 {
        let rest = rows.drop_last();
        let n = rows.len() - 1;
        assert(rows[n] == rows.last());
        if subject_has_prefix(key, rows.last().container) {
            assert forall|i: int|
                0 <= i < rows.len() && subject_has_prefix(key, #[trigger] rows[i].container)
                    implies rows[i].timestamp <= rows.last().timestamp by {
                assert(rows[i].timestamp <= rows[n].timestamp);
            }
            assert(rows.contains(rows.last()));
        } else {
            lemma_last_is_most_recent(rest, key);
            assert forall|i: int| 0 <= i < rest.len() implies #[trigger] rest[i] == rows[i] by {}
            if let Some(r) = last_row(rest, key) {
                let k = choose|k: int| 0 <= k < rest.len() && rest[k] == r;
                assert(rows[k] == r);
                assert forall|i: int|
                    0 <= i < rows.len() && subject_has_prefix(key, #[trigger] rows[i].container)
                        implies rows[i].timestamp <= r.timestamp by {
                    if i < n {
                        assert(rest[i] == rows[i]);
                    }
                }
            } else {
                assert forall|i: int| 0 <= i < rows.len() implies !subject_has_prefix(
                    key,
                    #[trigger] rows[i].container,
                ) by {
                    if i < n {
                        assert(rest[i] == rows[i]);
                    }
                }
            }
        }
    }
}

/// A row that does not match the key changes no latest-reading answer,
/// wherever it is inserted.
proof fn lemma_last_row_insert_other(rows: Seq<UsageRow>, p: int, row: UsageRow, key: Option<String>)
    requires
        0 <= p <= rows.len(),
        !subject_has_prefix(key, row.container),
    ensures
        last_row(rows.insert(p, row), key) == last_row(rows, key),
    decreases rows.len(),
{
    let s = rows.insert(p, row);
    if p == rows.len() {
        assert(s.drop_last() =~= rows);
    } else {
        assert(s.drop_last() =~= rows.drop_last().insert(p, row));
        lemma_last_row_insert_other(rows.drop_last(), p, row, key);
    }
}

/// A row that is not of the subject changes no history answer, wherever it
/// is inserted.
proof fn lemma_history_insert_other(
    rows: Seq<UsageRow>,
    p: int,
    row: UsageRow,
    key: Option<String>,
    from: int,
    to: int,
)
    requires
        0 <= p <= rows.len(),
        !subject_is(key, row.container),
    ensures
        history_rows(rows.insert(p, row), key, from, to) == history_rows(rows, key, from, to),
    decreases rows.len(),
{
    let s = rows.insert(p, row);
    if p == rows.len() {
        assert(s.drop_last() =~= rows);
    } else {
        assert(s.drop_last() =~= rows.drop_last().insert(p, row));
        lemma_history_insert_other(rows.drop_last(), p, row, key, from, to);
    }
}

/// Host and containers are disjoint subjects: inserting a container's sample
/// changes no answer about the host, and inserting a host sample changes no
/// answer about any container, whatever the timestamps.
pub proof fn lemma_subjects_disjoint(
    rows: Seq<UsageRow>,
    row: UsageRow,
    key: Option<String>,
    from: int,
    to: int,
    interval: Interval,
    now: Timestamp,
)
    requires
        row.container is Some <==> key is None,
    ensures
        last_row(inserted(rows, row), key) == last_row(rows, key),
        history_rows(inserted(rows, row), key, from, to) == history_rows(rows, key, from, to),
        interval_buckets(inserted(rows, row), key, interval, now) == interval_buckets(
            rows,
            key,
            interval,
            now,
        ),
{
    let p = insert_position(rows, row.timestamp) as int;
    assert(insert_position(rows, row.timestamp) <= rows.len()) by {
        lemma_insert_position_bound(rows, row.timestamp);
    }
    lemma_last_row_insert_other(rows, p, row, key);
    lemma_history_insert_other(rows, p, row, key, from, to);
    lemma_history_insert_other(rows, p, row, key, interval_from(interval, now), now as int);
}

proof fn lemma_insert_position_bound(rows: Seq<UsageRow>, ts: Timestamp)
    ensures
        insert_position(rows, ts) <= rows.len(),
    decreases rows.len(),
{
    if rows.len() > 0 && rows.last().timestamp > ts {
        lemma_insert_position_bound(rows.drop_last(), ts);
    }
}

/// A history answer holds, in time order, exactly the rows of the subject
/// whose times lie in `[from, to]`.
pub proof fn lemma_history_window(rows: Seq<UsageRow>, key: Option<String>, from: int, to: int)
    requires
        is_time_ordered(rows),
    ensures
        is_time_ordered(history_rows(rows, key, from, to)),
        forall|j: int|
            0 <= j < history_rows(rows, key, from, to).len() ==> {
                let r = #[trigger] history_rows(rows, key, from, to)[j];
                &&& subject_is(key, r.container)
                &&& from <= r.timestamp <= to
                &&& rows.contains(r)
            },
        forall|i: int|
            0 <= i < rows.len() && subject_is(key, #[trigger] rows[i].container) && from
                <= rows[i].timestamp <= to ==> history_rows(rows, key, from, to).contains(rows[i]),
    decreases rows.len(),
{
    if rows.len() > 0 {
        let rest = rows.drop_last();
        lemma_history_window(rest, key, from, to);
        let h = history_rows(rows, key, from, to);
        let hr = history_rows(rest, key, from, to);
        assert forall|j: int| 0 <= j < hr.len() implies #[trigger] hr[j].timestamp
            <= rows.last().timestamp by {
            let k = choose|k: int| 0 <= k < rest.len() && rest[k] == hr[j];
            assert(rows[k] == rest[k]);
        }
        assert forall|j: int| 0 <= j < h.len() implies {
            let r = #[trigger] h[j];
            &&& subject_is(key, r.container)
            &&& from <= r.timestamp <= to
            &&& rows.contains(r)
        } by {
            if j < hr.len() {
                assert(h[j] == hr[j]);
                let k = choose|k: int| 0 <= k < rest.len() && rest[k] == hr[j];
                assert(rows[k] == rest[k]);
            } else {
                assert(rows[rows.len() - 1] == rows.last());
            }
        }
        assert forall|i: int|
            0 <= i < rows.len() && subject_is(key, #[trigger] rows[i].container) && from
                <= rows[i].timestamp <= to implies h.contains(rows[i]) by {
            if i < rows.len() - 1 {
                assert(rest[i] == rows[i]);
                let j = choose|j: int| 0 <= j < hr.len() && hr[j] == rest[i];
                assert(h[j] == hr[j]);
            } else {
                assert(h[h.len() - 1] == rows[i]);
            }
        }
    }
}

/// With the window left open (from the epoch to `now`), a history answer
/// holds every row of the subject, in time order, provided that no row is
/// later than `now`.
pub proof fn lemma_history_all_rows(rows: Seq<UsageRow>, key: Option<String>, now: Timestamp)
    requires
        is_time_ordered(rows),
        forall|i: int| 0 <= i < rows.len() ==> #[trigger] rows[i].timestamp <= now,
    ensures
        is_time_ordered(history_rows(rows, key, 0, now as int)),
        forall|i: int|
            0 <= i < rows.len() && subject_is(key, #[trigger] rows[i].container)
                ==> history_rows(rows, key, 0, now as int).contains(rows[i]),
{
    lemma_history_window(rows, key, 0, now as int);
    assert forall|i: int|
        0 <= i < rows.len() && subject_is(key, #[trigger] rows[i].container) implies history_rows(
        rows,
        key,
        0,
        now as int,
    ).contains(rows[i]) by {
        assert(rows[i].timestamp <= now);
    }
}

/// The rows whose bucket of width `width` starts at `start`, in order.
pub open spec fn rows_in_bucket(rows: Seq<UsageRow>, width: int, start: int) -> Seq<UsageRow>
    decreases rows.len(),
{
    if rows.len() == 0 {
        Seq::empty()
    } else {
        let rest = rows_in_bucket(rows.drop_last(), width, start);
        if bucket_start(rows.last().timestamp as int, width) == start {
            rest.push(rows.last())
        } else {
            rest
        }
    }
}

/// The count and the sums of some rows, as one bucket that starts at `start`.
pub open spec fn totals_of(rows: Seq<UsageRow>, start: int) -> BucketSum
    decreases rows.len(),
{
    if rows.len() == 0 {
        BucketSum {
            start,
            count: 0,
            cpu: 0,
            memory_total: 0,
            memory_used: 0,
            memory_percentage: 0,
        }
    } else {
        add_to_bucket(totals_of(rows.drop_last(), start), rows.last())
    }
}

/// Bucket starts grow with time.
pub proof fn lemma_bucket_start_monotonic(a: int, b: int, width: int)
    requires
        0 <= a <= b,
        width > 0,
    ensures
        bucket_start(a, width) <= bucket_start(b, width),
{
    vstd::arithmetic::div_mod::lemma_fundamental_div_mod(a, width);
    vstd::arithmetic::div_mod::lemma_fundamental_div_mod(b, width);
    vstd::arithmetic::div_mod::lemma_div_is_ordered(a, b, width);
    vstd::arithmetic::mul::lemma_mul_inequality(a / width, b / width, width);
    vstd::arithmetic::mul::lemma_mul_is_commutative(width, a / width);
    vstd::arithmetic::mul::lemma_mul_is_commutative(width, b / width);
}

proof fn lemma_rows_in_bucket_empty(rows: Seq<UsageRow>, width: int, start: int)
    requires
        forall|i: int|
            0 <= i < rows.len() ==> bucket_start(#[trigger] rows[i].timestamp as int, width) != start,
    ensures
        rows_in_bucket(rows, width, start) == Seq::<UsageRow>::empty(),
    decreases rows.len(),
{
    if rows.len() > 0 {
        let rest = rows.drop_last();
        assert forall|i: int| 0 <= i < rest.len() implies bucket_start(
            #[trigger] rest[i].timestamp as int,
            width,
        ) != start by {
            assert(rest[i] == rows[i]);
        }
        lemma_rows_in_bucket_empty(rest, width, start);
        assert(bucket_start(rows[rows.len() - 1].timestamp as int, width) != start);
    }
}

/// Grouping time-ordered rows by bucket gives, in increasing order of start,
/// one entry for each bucket that holds a row and for no other, and each
/// entry holds the count and the sums of exactly the rows of its bucket, so
/// that its mean is the mean of those rows.
pub proof fn lemma_bucket_sums(rows: Seq<UsageRow>, width: int)
    requires
        is_time_ordered(rows),
        width > 0,
    ensures
        forall|j: int|
            0 <= j < bucket_sums(rows, width).len() ==> {
                let b = #[trigger] bucket_sums(rows, width)[j];
                &&& b.count >= 1
                &&& b == totals_of(rows_in_bucket(rows, width, b.start), b.start)
            },
        forall|j: int, k: int|
            0 <= j < k < bucket_sums(rows, width).len() ==> #[trigger] bucket_sums(rows, width)[j].start
                < #[trigger] bucket_sums(rows, width)[k].start,
        forall|i: int|
            0 <= i < rows.len() ==> exists|j: int|
                0 <= j < bucket_sums(rows, width).len() && #[trigger] bucket_sums(rows, width)[j].start
                    == bucket_start(#[trigger] rows[i].timestamp as int, width),
        rows.len() > 0 ==> bucket_sums(rows, width).len() > 0 && bucket_sums(rows, width).last().start
            == bucket_start(rows.last().timestamp as int, width),
    decreases rows.len(),
{
    if rows.len() > 0 {
        let rest = rows.drop_last();
        let r = rows.last();
        let k = bucket_start(r.timestamp as int, width);
        let prev = bucket_sums(rest, width);
        let b = bucket_sums(rows, width);
        lemma_bucket_sums(rest, width);
        // every earlier row lies in a bucket no later than the last row's
        assert forall|i: int| 0 <= i < rest.len() implies bucket_start(
            #[trigger] rest[i].timestamp as int,
            width,
        ) <= k by {
            assert(rest[i] == rows[i]);
            assert(rows[i].timestamp <= rows[rows.len() - 1].timestamp);
            lemma_bucket_start_monotonic(rest[i].timestamp as int, r.timestamp as int, width);
        }
        if prev.len() > 0 {
            assert(prev.last().start <= k) by {
                assert(rest[rest.len() - 1] == rest.last());
            }
        }
        assert forall|j: int| 0 <= j < prev.len() implies #[trigger] prev[j].start <= k by {
            if j < prev.len() - 1 {
                assert(prev[j].start < prev[prev.len() - 1].start);
            }
        }
        assert forall|j: int| 0 <= j < prev.len() && prev[j].start != k implies rows_in_bucket(
            rows,
            width,
            #[trigger] prev[j].start,
        ) == rows_in_bucket(rest, width, prev[j].start) by {}
        assert(rows_in_bucket(rows, width, k) == rows_in_bucket(rest, width, k).push(r));
        assert(rows_in_bucket(rows, width, k).drop_last() =~= rows_in_bucket(rest, width, k));
        if prev.len() > 0 && prev.last().start == k {
            assert forall|j: int| 0 <= j < b.len() implies {
                let e = #[trigger] b[j];
                &&& e.count >= 1
                &&& e == totals_of(rows_in_bucket(rows, width, e.start), e.start)
            } by {
                if j < prev.len() - 1 {
                    assert(prev[j].start < prev[prev.len() - 1].start);
                    assert(b[j] == prev[j]);
                } else {
                    assert(prev[j] == prev.last());
                }
            }
            assert forall|i: int| 0 <= i < rows.len() implies exists|j: int|
                0 <= j < b.len() && #[trigger] b[j].start == bucket_start(
                    #[trigger] rows[i].timestamp as int,
                    width,
                ) by {
                if i < rest.len() {
                    assert(rest[i] == rows[i]);
                    let j = choose|j: int|
                        0 <= j < prev.len() && #[trigger] prev[j].start == bucket_start(
                            rest[i].timestamp as int,
                            width,
                        );
                    assert(b[j].start == prev[j].start);
                } else {
                    assert(b[b.len() - 1].start == k);
                }
            }
            assert forall|j: int, m: int| 0 <= j < m < b.len() implies #[trigger] b[j].start
                < #[trigger] b[m].start by {
                assert(b[j].start == prev[j].start);
                assert(b[m].start == prev[m].start);
            }
        } else {
            assert forall|i: int| 0 <= i < rest.len() implies bucket_start(
                #[trigger] rest[i].timestamp as int,
                width,
            ) != k by {
                let j = choose|j: int|
                    0 <= j < prev.len() && #[trigger] prev[j].start == bucket_start(
                        rest[i].timestamp as int,
                        width,
                    );
                if j < prev.len() - 1 {
                    assert(prev[j].start < prev[prev.len() - 1].start);
                }
            }
            lemma_rows_in_bucket_empty(rest, width, k);
            assert(rows_in_bucket(rows, width, k) =~= seq![r]);
            assert(seq![r].drop_last() =~= Seq::<UsageRow>::empty());
            let z = totals_of(Seq::<UsageRow>::empty(), k);
            assert(z.count == 0 && z.cpu == 0 && z.memory_total == 0 && z.memory_used == 0
                && z.memory_percentage == 0 && z.start == k);
            assert(seq![r].last() == r);
            assert(totals_of(seq![r], k) == add_to_bucket(z, r));
            assert(totals_of(seq![r], k) == first_in_bucket(k, r));
            assert forall|j: int| 0 <= j < b.len() implies {
                let e = #[trigger] b[j];
                &&& e.count >= 1
                &&& e == totals_of(rows_in_bucket(rows, width, e.start), e.start)
            } by {
                if j < prev.len() {
                    assert(b[j] == prev[j]);
                }
            }
            assert forall|i: int| 0 <= i < rows.len() implies exists|j: int|
                0 <= j < b.len() && #[trigger] b[j].start == bucket_start(
                    #[trigger] rows[i].timestamp as int,
                    width,
                ) by {
                if i < rest.len() {
                    assert(rest[i] == rows[i]);
                    let j = choose|j: int|
                        0 <= j < prev.len() && #[trigger] prev[j].start == bucket_start(
                            rest[i].timestamp as int,
                            width,
                        );
                    assert(b[j] == prev[j]);
                } else {
                    assert(b[b.len() - 1].start == k);
                }
            }
            assert forall|j: int, m: int| 0 <= j < m < b.len() implies #[trigger] b[j].start
                < #[trigger] b[m].start by {
                if m < prev.len() {
                    assert(b[j] == prev[j]);
                    assert(b[m] == prev[m]);
                } else {
                    assert(b[j] == prev[j]);
                }
            }
        }
    }
}

/// An interval answer groups the subject's rows of the window `[now - span,
/// now]` by bucket: one entry per bucket that holds a row, in increasing
/// order of start, none for an empty bucket, each with the count and the
/// sums of exactly the window's rows in its bucket.
pub proof fn lemma_interval_buckets(
    rows: Seq<UsageRow>,
    key: Option<String>,
    interval: Interval,
    now: Timestamp,
)
    requires
        is_time_ordered(rows),
    ensures
        ({
            let window = history_rows(rows, key, interval_from(interval, now), now as int);
            let width = interval_millis(interval) as int;
            let b = interval_buckets(rows, key, interval, now);
            &&& forall|j: int|
                0 <= j < b.len() ==> {
                    let e = #[trigger] b[j];
                    &&& e.count >= 1
                    &&& e == totals_of(rows_in_bucket(window, width, e.start), e.start)
                }
            &&& forall|j: int, k: int| 0 <= j < k < b.len() ==> #[trigger] b[j].start < #[trigger] b[k].start
            &&& forall|i: int|
                0 <= i < window.len() ==> exists|j: int|
                    0 <= j < b.len() && #[trigger] b[j].start == bucket_start(
                        #[trigger] window[i].timestamp as int,
                        width,
                    )
        }),
{
    let window = history_rows(rows, key, interval_from(interval, now), now as int);
    let width = interval_millis(interval) as int;
    lemma_history_window(rows, key, interval_from(interval, now), now as int);
    lemma_bucket_sums(window, width);
    assert(interval_buckets(rows, key, interval, now) == bucket_sums(window, width));
}

} // verus!
