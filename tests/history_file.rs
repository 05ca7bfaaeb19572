use work_timer::error::{corrupt_record_errors, TimerError};
use work_timer::history::{header_row, read_all, record_row, HistoryRecord};

fn rec(w: u64, p: u64, e: u64) -> HistoryRecord {
    HistoryRecord { work_seconds: w, pause_seconds: p, end_unix_time: e }
}

#[test]
fn header_and_row_text() {
    assert_eq!(header_row(), b"Work,Play,End\n".to_vec());
    assert_eq!(record_row(&rec(100, 50, 1_718_000_000)), b"100,50,1718000000\n".to_vec());
    assert_eq!(record_row(&rec(0, 0, 0)), b"0,0,0\n".to_vec());
}

#[test]
fn appended_record_reads_back() {
    let r = rec(1500, 300, 1_718_012_345);
    let mut file = header_row();
    file.extend(record_row(&rec(1, 2, 3)));
    file.extend(record_row(&r));
    let scan = read_all(&file);
    assert_eq!(scan.records, vec![rec(1, 2, 3), r]);
    assert!(scan.corrupt_lines.is_empty());
}

#[test]
fn largest_values_read_back() {
    let r = rec(u64::MAX, u64::MAX, u64::MAX);
    let mut file = header_row();
    file.extend(record_row(&r));
    assert_eq!(read_all(&file).records, vec![r]);
}

#[test]
fn one_bad_row_among_five_good_ones() {
    let text = b"Work,Play,End\n1,1,1\n2,2,2\n3,x,3\n4,4,4\n5,5,5\n6,6,6\n";
    let scan = read_all(text);
    assert_eq!(
        scan.records,
        vec![rec(1, 1, 1), rec(2, 2, 2), rec(4, 4, 4), rec(5, 5, 5), rec(6, 6, 6)]
    );
    assert_eq!(scan.corrupt_lines, vec![4]);
    assert_eq!(
        corrupt_record_errors(&scan.corrupt_lines),
        vec![TimerError::CorruptRecord { line: 4 }]
    );
}

#[test]
fn malformed_rows_are_reported() {
    let text = b"Work,Play,End\n1,2\n1,2,3,4\n,1,2\n18446744073709551616,0,0\n -1,0,0\n7,8,9";
    let scan = read_all(text);
    assert_eq!(scan.records, vec![rec(7, 8, 9)]);
    assert_eq!(scan.corrupt_lines, vec![2, 3, 4, 5, 6]);
}

#[test]
fn blank_lines_and_crlf_are_tolerated() {
    let text = b"Work,Play,End\r\n10,20,30\r\n\r\n\n40,50,60\r\n";
    let scan = read_all(text);
    assert_eq!(scan.records, vec![rec(10, 20, 30), rec(40, 50, 60)]);
    assert!(scan.corrupt_lines.is_empty());
}

#[test]
fn empty_and_header_only_files_hold_nothing() {
    assert!(read_all(b"").records.is_empty());
    assert!(read_all(b"Work,Play,End\n").records.is_empty());
    // the first line is always the header, even when it looks like a row
    assert!(read_all(b"1,2,3\n").records.is_empty());
}

#[test]
fn session_appended_to_a_new_file_is_the_last_record() {
    let mut file = header_row();
    for r in [rec(10, 0, 100), rec(20, 5, 200)] {
        file.extend(record_row(&r));
    }
    let appended = rec(3600, 600, 1_718_020_000);
    file.extend(record_row(&appended));
    let scan = read_all(&file);
    assert_eq!(scan.records.len(), 3);
    assert_eq!(*scan.records.last().unwrap(), appended);
}
