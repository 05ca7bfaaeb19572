use work_timer::aggregate::{
    aggregate_last_x_days, aggregate_range, aggregate_today, bucket_last_x_days, bucket_range,
    bucket_today, date_records, day_bucket_index, sum_buckets, undatable_records, DatedRecord,
    DayBucket,
};
use work_timer::calendar::{local_day, parse_day, today, LocalDay, LATEST_DATABLE_UNIX_TIME};
use work_timer::error::TimerError;
use work_timer::history::HistoryRecord;

fn day(s: &str) -> LocalDay {
    parse_day(s).unwrap()
}

fn dated(w: u64, p: u64, d: LocalDay) -> DatedRecord {
    DatedRecord {
        record: HistoryRecord { work_seconds: w, pause_seconds: p, end_unix_time: 0 },
        day: d,
    }
}

fn bucket(w: u64, p: u64) -> DayBucket {
    DayBucket { work_seconds: w, pause_seconds: p }
}

#[test]
fn parse_day_counts_days_from_the_common_era() {
    assert_eq!(parse_day("0001-01-01"), Some(LocalDay { days_from_ce: 1 }));
    assert_eq!(parse_day("1970-01-01"), Some(LocalDay { days_from_ce: 719_163 }));
    assert_eq!(parse_day("2024-06-10"), Some(LocalDay { days_from_ce: 739_047 }));
    assert_eq!(parse_day("2024-13-01"), None);
    assert_eq!(parse_day("2023-02-29"), None);
    assert_eq!(parse_day("yesterday"), None);
}

#[test]
fn bucket_index_boundary() {
    let reference = day("2024-06-10");
    assert_eq!(day_bucket_index(reference, 3, day("2024-06-10")), Some(0));
    assert_eq!(day_bucket_index(reference, 3, day("2024-06-08")), Some(2));
    assert_eq!(day_bucket_index(reference, 3, day("2024-06-07")), None);
    assert_eq!(day_bucket_index(reference, 3, day("2024-06-11")), None);
    assert_eq!(day_bucket_index(reference, 0, day("2024-06-10")), None);
}

#[test]
fn one_day_bucket_sums_only_that_day() {
    let d0 = day("2024-06-10");
    let d1 = day("2024-06-09");
    let records = vec![dated(100, 50, d0), dated(200, 0, d0), dated(0, 0, d1)];
    assert_eq!(bucket_last_x_days(&records, d0, 1), vec![bucket(300, 50)]);
    assert_eq!(bucket_today(&records, d0), bucket(300, 50));
}

#[test]
fn last_days_are_ordered_today_first() {
    let d0 = day("2024-06-10");
    let records = vec![
        dated(1, 2, day("2024-06-08")),
        dated(10, 20, d0),
        dated(5, 5, day("2024-06-07")),
        dated(3, 4, day("2024-06-08")),
        dated(7, 7, day("2024-06-11")),
    ];
    let buckets = bucket_last_x_days(&records, d0, 3);
    assert_eq!(buckets, vec![bucket(10, 20), bucket(0, 0), bucket(4, 6)]);
    assert_eq!(sum_buckets(&buckets), (14, 26));
    assert!(bucket_last_x_days(&records, d0, 0).is_empty());
}

#[test]
fn totals_stop_at_the_largest_u64() {
    let d0 = day("2024-06-10");
    let records = vec![dated(u64::MAX, 1, d0), dated(5, 2, d0)];
    assert_eq!(bucket_today(&records, d0), bucket(u64::MAX, 3));
    assert_eq!(sum_buckets(&vec![bucket(u64::MAX, 1), bucket(1, 1)]), (u64::MAX, 2));
    assert_eq!(sum_buckets(&vec![]), (0, 0));
}

#[test]
fn range_buckets_each_day_in_order() {
    let records = vec![
        dated(1, 0, day("2024-06-01")),
        dated(2, 0, day("2024-06-03")),
        dated(4, 1, day("2024-06-03")),
        dated(8, 0, day("2024-05-31")),
        dated(16, 0, day("2024-06-04")),
    ];
    let r = bucket_range(&records, day("2024-06-01"), day("2024-06-03")).unwrap();
    assert_eq!(r, vec![bucket(1, 0), bucket(0, 0), bucket(6, 1)]);
    let single = bucket_range(&records, day("2024-06-04"), day("2024-06-04")).unwrap();
    assert_eq!(single, vec![bucket(16, 0)]);
}

#[test]
fn reversed_range_is_refused() {
    let records: Vec<HistoryRecord> = vec![];
    assert_eq!(
        aggregate_range(&records, day("2024-06-10"), day("2024-06-01")),
        Err(TimerError::InvalidRange)
    );
    assert_eq!(bucket_range(&vec![], day("2024-06-10"), day("2024-06-01")), Err(TimerError::InvalidRange));
}

#[test]
fn records_get_their_local_day() {
    let records = vec![
        HistoryRecord { work_seconds: 1, pause_seconds: 2, end_unix_time: 1_718_000_000 },
        HistoryRecord { work_seconds: 3, pause_seconds: 4, end_unix_time: u64::MAX },
    ];
    let d = date_records(&records);
    assert_eq!(d.len(), 1);
    assert_eq!(d[0].record, records[0]);
    assert_eq!(Some(d[0].day), local_day(1_718_000_000));
    let known = local_day(1_718_000_000).unwrap().days_from_ce;
    assert!(known == 739_047 || known == 739_048 || known == 739_046);
}

#[test]
fn queries_on_the_real_clock() {
    let now = std::time::SystemTime::now()
        .duration_since(std::time::UNIX_EPOCH)
        .unwrap()
        .as_secs();
    let records = vec![HistoryRecord { work_seconds: 60, pause_seconds: 5, end_unix_time: now }];
    let d = today();
    let t = aggregate_today(&records);
    if local_day(now) == Some(d) {
        assert_eq!(t, bucket(60, 5));
    }
    let last = aggregate_last_x_days(&records, 4);
    assert_eq!(last.len(), 4);
    assert_eq!(sum_buckets(&last), (60, 5));
    let range = aggregate_range(&records, LocalDay { days_from_ce: d.days_from_ce - 1 }, d).unwrap();
    assert_eq!(range.len(), 2);
}

#[test]
fn local_day_stops_at_the_last_datable_time() {
    assert!(local_day(LATEST_DATABLE_UNIX_TIME).is_some());
    assert_eq!(local_day(LATEST_DATABLE_UNIX_TIME + 1), None);
    assert_eq!(local_day(8_210_266_876_799), None);
    assert_eq!(local_day(u64::MAX), None);
    let epoch = local_day(0).unwrap().days_from_ce;
    assert!((719_162..=719_164).contains(&epoch));
}

#[test]
fn undatable_records_are_left_out_and_named() {
    let rec = |e: u64| HistoryRecord { work_seconds: 1, pause_seconds: 1, end_unix_time: e };
    let records = vec![rec(0), rec(8_210_266_876_799), rec(86_400), rec(u64::MAX)];
    assert_eq!(undatable_records(&records), vec![1, 3]);
    let d = date_records(&records);
    assert_eq!(d.iter().map(|x| x.record).collect::<Vec<_>>(), vec![rec(0), rec(86_400)]);
    assert!(today().days_from_ce >= 739_047);
}
