//! Totals of past sessions per local calendar day: the last `x` days up to a
//! reference day, or every day of an inclusive range. Sums that would not
//! fit in a `u64` stop at `u64::MAX`.
use vstd::prelude::*;
use crate::calendar::{local_day, near_utc_day, today, LocalDay, LATEST_DATABLE_UNIX_TIME};
use crate::error::TimerError;
use crate::history::HistoryRecord;

verus! {

/// The totals of one day.
#[derive(Clone, Copy, Debug, PartialEq, Eq, Structural)]
pub struct DayBucket {
    pub work_seconds: u64,
    pub pause_seconds: u64,
}

/// A record together with the local day on which it ended.
#[derive(Clone, Copy, Debug, PartialEq, Eq, Structural)]
pub struct DatedRecord {
    pub record: HistoryRecord,
    pub day: LocalDay,
}

pub open spec fn work_on(dated: Seq<DatedRecord>, day: int) -> nat
    decreases dated.len(),
{
    if dated.len() == 0 {
        0
    } else {
        work_on(dated.drop_last(), day) + if dated.last().day.days_from_ce == day {
            dated.last().record.work_seconds as nat
        } else {
            0
        }
    }
}

pub open spec fn pause_on(dated: Seq<DatedRecord>, day: int) -> nat
    decreases dated.len(),
{
    if dated.len() == 0 {
        0
    } else {
        pause_on(dated.drop_last(), day) + if dated.last().day.days_from_ce == day {
            dated.last().record.pause_seconds as nat
        } else {
            0
        }
    }
}

pub open spec fn capped(n: nat) -> u64 {
    if n > u64::MAX {
        u64::MAX
    } else {
        n as u64
    }
}

/// The totals of the records that ended on `day`.
pub open spec fn bucket_on(dated: Seq<DatedRecord>, day: int) -> DayBucket {
    DayBucket {
        work_seconds: capped(work_on(dated, day)),
        pause_seconds: capped(pause_on(dated, day)),
    }
}

/// Which of the last `x` days up to `reference` a day is: 0 for the
/// reference day itself, up to `x - 1`; none outside that closed interval.
pub open spec fn bucket_index(reference: int, x: int, day: int) -> Option<int> {
    if day <= reference && reference - day < x {
        Some(reference - day)
    } else {
        None
    }
}

/// One bucket for each of the last `x` days, the reference day first.
pub open spec fn last_days_buckets(dated: Seq<DatedRecord>, reference: int, x: nat) -> Seq<
    DayBucket,
> {
    Seq::new(x, |i: int| bucket_on(dated, reference - i))
}

/// One bucket for each of `n` days from `start` on, in calendar order.
pub open spec fn range_buckets(dated: Seq<DatedRecord>, start: int, n: nat) -> Seq<DayBucket> {
    Seq::new(n, |i: int| bucket_on(dated, start + i))
}

pub open spec fn total_work(bs: Seq<DayBucket>) -> nat
    decreases bs.len(),
{
    if bs.len() == 0 {
        0
    } else {
        total_work(bs.drop_last()) + bs.last().work_seconds as nat
    }
}

pub open spec fn total_pause(bs: Seq<DayBucket>) -> nat
    decreases bs.len(),
{
    if bs.len() == 0 {
        0
    } else {
        total_pause(bs.drop_last()) + bs.last().pause_seconds as nat
    }
}

/// The records whose end time has a local day, in order.
pub open spec fn datable(records: Seq<HistoryRecord>) -> Seq<HistoryRecord>
    decreases records.len(),
{
    if records.len() == 0 {
        seq![]
    } else {
        let prev = datable(records.drop_last());
        if records.last().end_unix_time <= LATEST_DATABLE_UNIX_TIME {
            prev.push(records.last())
        } else {
            prev
        }
    }
}

/// The positions of the records whose end time has no local day.
pub open spec fn undatable_positions(records: Seq<HistoryRecord>) -> Seq<int>
    decreases records.len(),
{
    if records.len() == 0 {
        seq![]
    } else {
        let prev = undatable_positions(records.drop_last());
        if records.last().end_unix_time > LATEST_DATABLE_UNIX_TIME {
            prev.push(records.len() - 1)
        } else {
            prev
        }
    }
}

/// `dated` holds the datable `records`, in order and each once, every one on
/// a day within one of the UTC day of its end time.
pub open spec fn dated_from(dated: Seq<DatedRecord>, records: Seq<HistoryRecord>) -> bool {
    &&& dated.map_values(|d: DatedRecord| d.record) == datable(records)
    &&& forall|i: int|
        #![trigger dated[i]]
        0 <= i < dated.len() ==> near_utc_day(dated[i].day, dated[i].record.end_unix_time)
}

proof fn lemma_capped_add(a: nat, v: u64)
    ensures
        capped(a + v as nat) == (if capped(a) + v > u64::MAX {
            u64::MAX
        } else {
            (capped(a) + v) as u64
        }),
{
}

/// Adding one more record changes only the bucket of its own day.
proof fn lemma_bucket_step(dated: Seq<DatedRecord>, k: int, day: int)
    requires
        0 <= k < dated.len(),
    ensures
        bucket_on(dated.take(k + 1), day) == (if dated[k].day.days_from_ce == day {
            add_record_spec(bucket_on(dated.take(k), day), dated[k].record)
        } else {
            bucket_on(dated.take(k), day)
        }),
{
    assert(dated.take(k + 1).drop_last() =~= dated.take(k));
    lemma_capped_add(work_on(dated.take(k), day), dated[k].record.work_seconds);
    lemma_capped_add(pause_on(dated.take(k), day), dated[k].record.pause_seconds);
}

pub open spec fn add_record_spec(b: DayBucket, r: HistoryRecord) -> DayBucket {
    DayBucket {
        work_seconds: if b.work_seconds + r.work_seconds > u64::MAX {
            u64::MAX
        } else {
            (b.work_seconds + r.work_seconds) as u64
        },
        pause_seconds: if b.pause_seconds + r.pause_seconds > u64::MAX {
            u64::MAX
        } else {
            (b.pause_seconds + r.pause_seconds) as u64
        },
    }
}

fn add_record(b: DayBucket, r: &HistoryRecord) -> (out: DayBucket)
    ensures
        out == add_record_spec(b, *r),
{
    DayBucket {
        work_seconds: b.work_seconds.saturating_add(r.work_seconds),
        pause_seconds: b.pause_seconds.saturating_add(r.pause_seconds),
    }
}

fn zero_buckets(n: usize) -> (r: Vec<DayBucket>)
    ensures
        r@.len() == n,
        forall|i: int| 0 <= i < n ==> r@[i] == (DayBucket { work_seconds: 0, pause_seconds: 0 }),
{
    let mut r: Vec<DayBucket> = Vec::new();
    let mut i: usize = 0;
    while i < n
        invariant
            i <= n,
            r@.len() == i,
            forall|k: int| 0 <= k < i ==> r@[k] == (DayBucket { work_seconds: 0, pause_seconds: 0 }),
        decreases n - i,
    {
        r.push(DayBucket { work_seconds: 0, pause_seconds: 0 });
        i = i + 1;
    }
    r
}

/// Where `record_day` falls among the last `x` days up to `reference_day`:
/// 0 is the reference day, `x - 1` the earliest of them.
pub fn day_bucket_index(reference_day: LocalDay, x: usize, record_day: LocalDay) -> (r: Option<
    usize,
>)
    ensures
        match r {
            Some(i) => bucket_index(
                reference_day.days_from_ce as int,
                x as int,
                record_day.days_from_ce as int,
            ) == Some(i as int),
            None => (bucket_index(
                reference_day.days_from_ce as int,
                x as int,
                record_day.days_from_ce as int,
            ) is None),
        },
{
    let d: i64 = reference_day.days_from_ce as i64 - record_day.days_from_ce as i64;
    if d >= 0 && (d as u64) < (x as u64) {
        Some(d as usize)
    } else {
        None
    }
}

/// The totals of each of the last `x` days up to `reference_day`, that day first.
pub fn bucket_last_x_days(dated: &Vec<DatedRecord>, reference_day: LocalDay, x: usize) -> (r: Vec<
    DayBucket,
>)
    ensures
        r@ == last_days_buckets(dated@, reference_day.days_from_ce as int, x as nat),
{
    let ghost reference = reference_day.days_from_ce as int;
    let mut buckets = zero_buckets(x);
    assert(dated@.take(0) =~= Seq::<DatedRecord>::empty());
    let mut k: usize = 0;
    while k < dated.len()
        invariant
            k <= dated@.len(),
            buckets@.len() == x,
            reference == reference_day.days_from_ce,
            forall|i: int|
                0 <= i < x ==> #[trigger] buckets@[i] == bucket_on(dated@.take(k as int), reference - i),
        decreases dated@.len() - k,
    {
        let item = dated[k];
        let slot = day_bucket_index(reference_day, x, item.day);
        let ghost before = buckets@;
        match slot {
            Some(i) => {
                let b = add_record(buckets[i], &item.record);
                buckets.set(i, b);
            },
            None => {},
        }
        proof {
            assert forall|i: int| 0 <= i < x implies #[trigger] buckets@[i] == bucket_on(
                dated@.take(k + 1),
                reference - i,
            ) by {
                lemma_bucket_step(dated@, k as int, reference - i);
                assert(before[i] == bucket_on(dated@.take(k as int), reference - i));
                match slot {
                    Some(s) => {
                        if i != s as int {
                            assert(buckets@[i] == before[i]);
                        }
                    },
                    None => {},
                }
            }
        }
        k = k + 1;
    }
    assert(dated@.take(dated@.len() as int) =~= dated@);
    assert(buckets@ =~= last_days_buckets(dated@, reference, x as nat));
    buckets
}

/// The totals of each day from `start` to `end`, both included, in calendar
/// order; an `end` before `start` is refused.
pub fn bucket_range(dated: &Vec<DatedRecord>, start: LocalDay, end: LocalDay) -> (r: Result<
    Vec<DayBucket>,
    TimerError,
>)
    requires
        end.days_from_ce - start.days_from_ce < usize::MAX,
    ensures
        start.days_from_ce > end.days_from_ce ==> r == Err::<Vec<DayBucket>, TimerError>(
            TimerError::InvalidRange,
        ),
        start.days_from_ce <= end.days_from_ce ==> r is Ok && r->Ok_0@ == range_buckets(
            dated@,
            start.days_from_ce as int,
            (end.days_from_ce - start.days_from_ce + 1) as nat,
        ),
{
    if start.days_from_ce > end.days_from_ce {
        return Err(TimerError::InvalidRange);
    }
    let ghost first = start.days_from_ce as int;
    let n: usize = (end.days_from_ce as i64 - start.days_from_ce as i64 + 1) as usize;
    let mut buckets = zero_buckets(n);
    assert(dated@.take(0) =~= Seq::<DatedRecord>::empty());
    let mut k: usize = 0;
    while k < dated.len()
        invariant
            k <= dated@.len(),
            buckets@.len() == n,
            n == end.days_from_ce - first + 1,
            first == start.days_from_ce,
            forall|i: int|
                0 <= i < n ==> #[trigger] buckets@[i] == bucket_on(dated@.take(k as int), first + i),
        decreases dated@.len() - k,
    {
        let item = dated[k];
        let d: i64 = item.day.days_from_ce as i64 - start.days_from_ce as i64;
        if d >= 0 && (d as u64) < (n as u64) {
            let i = d as usize;
            let b = add_record(buckets[i], &item.record);
            buckets.set(i, b);
        }
        proof {
            assert forall|i: int| 0 <= i < n implies #[trigger] buckets@[i] == bucket_on(
                dated@.take(k + 1),
                first + i,
            ) by {
                lemma_bucket_step(dated@, k as int, first + i);
            }
        }
        k = k + 1;
    }
    assert(dated@.take(dated@.len() as int) =~= dated@);
    assert(buckets@ =~= range_buckets(dated@, first, n as nat));
    Ok(buckets)
}

/// The work and pause totals over all buckets.
pub fn sum_buckets(buckets: &Vec<DayBucket>) -> (r: (u64, u64))
    ensures
        r.0 == capped(total_work(buckets@)),
        r.1 == capped(total_pause(buckets@)),
{
    let mut work: u64 = 0;
    let mut pause: u64 = 0;
    let mut k: usize = 0;
    assert(buckets@.take(0) =~= Seq::<DayBucket>::empty());
    while k < buckets.len()
        invariant
            k <= buckets@.len(),
            work == capped(total_work(buckets@.take(k as int))),
            pause == capped(total_pause(buckets@.take(k as int))),
        decreases buckets@.len() - k,
    {
        proof {
            assert(buckets@.take(k + 1).drop_last() =~= buckets@.take(k as int));
            lemma_capped_add(total_work(buckets@.take(k as int)), buckets@[k as int].work_seconds);
            lemma_capped_add(total_pause(buckets@.take(k as int)), buckets@[k as int].pause_seconds);
        }
        work = work.saturating_add(buckets[k].work_seconds);
        pause = pause.saturating_add(buckets[k].pause_seconds);
        k = k + 1;
    }
    assert(buckets@.take(buckets@.len() as int) =~= buckets@);
    (work, pause)
}

/// The totals of `day` alone: the one-day case of [`bucket_last_x_days`].
pub fn bucket_today(dated: &Vec<DatedRecord>, day: LocalDay) -> (r: DayBucket)
    ensures
        r == bucket_on(dated@, day.days_from_ce as int),
{
    let one = bucket_last_x_days(dated, day, 1);
    assert(one@[0] == bucket_on(dated@, day.days_from_ce - 0));
    one[0]
}

/// Pairs each record with the local day on which it ended. A record past the
/// last datable time has no day and is left out.
pub fn date_records(records: &Vec<HistoryRecord>) -> (r: Vec<DatedRecord>)
    ensures
        dated_from(r@, records@),
{
    let mut out: Vec<DatedRecord> = Vec::new();
    let mut k: usize = 0;
    assert(records@.take(0) =~= Seq::<HistoryRecord>::empty());
    assert(out@.map_values(|d: DatedRecord| d.record) =~= Seq::<HistoryRecord>::empty());
    while k < records.len()
        invariant
            k <= records@.len(),
            dated_from(out@, records@.take(k as int)),
        decreases records@.len() - k,
    {
        let rec = records[k];
        let ghost before = out@;
        assert(records@.take(k + 1).drop_last() =~= records@.take(k as int));
        assert(records@.take(k + 1).last() == rec);
        match local_day(rec.end_unix_time) {
            Some(day) => {
                out.push(DatedRecord { record: rec, day });
                assert(out@.map_values(|d: DatedRecord| d.record) =~= before.map_values(
                    |d: DatedRecord| d.record,
                ).push(rec));
            },
            None => {},
        }
        assert(forall|i: int|
            #![trigger out@[i]]
            0 <= i < out@.len() ==> near_utc_day(out@[i].day, out@[i].record.end_unix_time));
        k = k + 1;
    }
    assert(records@.take(records@.len() as int) =~= records@);
    out
}

/// The positions of the records that [`date_records`] leaves out, in order.
pub fn undatable_records(records: &Vec<HistoryRecord>) -> (r: Vec<usize>)
    ensures
        r@.len() == undatable_positions(records@).len(),
        forall|i: int|
            0 <= i < r@.len() ==> r@[i] as int == undatable_positions(records@)[i],
{
    let mut out: Vec<usize> = Vec::new();
    let mut k: usize = 0;
    assert(records@.take(0) =~= Seq::<HistoryRecord>::empty());
    while k < records.len()
        invariant
            k <= records@.len(),
            out@.len() == undatable_positions(records@.take(k as int)).len(),
            forall|i: int|
                0 <= i < out@.len() ==> out@[i] as int == undatable_positions(
                    records@.take(k as int),
                )[i],
        decreases records@.len() - k,
    {
        assert(records@.take(k + 1).drop_last() =~= records@.take(k as int));
        if records[k].end_unix_time > LATEST_DATABLE_UNIX_TIME {
            out.push(k);
        }
        k = k + 1;
    }
    assert(records@.take(records@.len() as int) =~= records@);
    out
}

/// The totals of each of the last `x` local days, today first.
pub fn aggregate_last_x_days(records: &Vec<HistoryRecord>, x: usize) -> (r: Vec<DayBucket>)
    ensures
        r@.len() == x,
        exists|dated: Seq<DatedRecord>, reference: int|
            dated_from(dated, records@) && reference >= 719_162 && r@ == last_days_buckets(
                dated,
                reference,
                x as nat,
            ),
{
    let dated = date_records(records);
    let day = today();
    let r = bucket_last_x_days(&dated, day, x);
    assert(dated_from(dated@, records@) && day.days_from_ce >= 719_162 && r@ == last_days_buckets(
        dated@,
        day.days_from_ce as int,
        x as nat,
    ));
    r
}

/// Today's totals, local time.
pub fn aggregate_today(records: &Vec<HistoryRecord>) -> (r: DayBucket)
    ensures
        exists|dated: Seq<DatedRecord>, day: int|
            dated_from(dated, records@) && day >= 719_162 && r == bucket_on(dated, day),
{
    let dated = date_records(records);
    let day = today();
    let r = bucket_today(&dated, day);
    assert(dated_from(dated@, records@) && day.days_from_ce >= 719_162 && r == bucket_on(
        dated@,
        day.days_from_ce as int,
    ));
    r
}

/// The totals of each local day from `start` to `end`, both included; an
/// `end` before `start` is refused before anything is read.
pub fn aggregate_range(records: &Vec<HistoryRecord>, start: LocalDay, end: LocalDay) -> (r: Result<
    Vec<DayBucket>,
    TimerError,
>)
    requires
        end.days_from_ce - start.days_from_ce < usize::MAX,
    ensures
        start.days_from_ce > end.days_from_ce ==> r == Err::<Vec<DayBucket>, TimerError>(
            TimerError::InvalidRange,
        ),
        start.days_from_ce <= end.days_from_ce ==> r is Ok && exists|dated: Seq<DatedRecord>|
            dated_from(dated, records@) && r->Ok_0@ == range_buckets(
                dated,
                start.days_from_ce as int,
                (end.days_from_ce - start.days_from_ce + 1) as nat,
            ),
{
    if start.days_from_ce > end.days_from_ce {
        return Err(TimerError::InvalidRange);
    }
    let dated = date_records(records);
    let r = bucket_range(&dated, start, end);
    assert(dated_from(dated@, records@));
    r
}

} // verus!
