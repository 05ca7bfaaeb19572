//! The history file: a header row, then one row of three decimal integers per
//! finished session (`work,pause,end`).
use vstd::prelude::*;
use crate::decimal::{
    all_digits, digits_of, field_value, is_digit, lemma_digits_of, parse_field, push_decimal,
};

verus! {

/// One finished session as stored in the history file.
#[derive(Clone, Copy, Debug, PartialEq, Eq, Structural)]
pub struct HistoryRecord {
    pub work_seconds: u64,
    pub pause_seconds: u64,
    pub end_unix_time: u64,
}

pub const NEWLINE: u8 = 10;

pub const COMMA: u8 = 44;

pub const CARRIAGE_RETURN: u8 = 13;

/// `Work,Play,End` and a newline.
pub open spec fn header_bytes() -> Seq<u8> {
    seq![87u8, 111, 114, 107, 44, 80, 108, 97, 121, 44, 69, 110, 100, 10]
}

/// The row of a record, without its newline.
pub open spec fn row_text(r: HistoryRecord) -> Seq<u8> {
    digits_of(r.work_seconds as nat) + seq![COMMA] + digits_of(r.pause_seconds as nat) + seq![
        COMMA,
    ] + digits_of(r.end_unix_time as nat)
}

/// The row of a record as appended to the file.
pub open spec fn row_bytes(r: HistoryRecord) -> Seq<u8> {
    row_text(r).push(NEWLINE)
}

/// Position of the first `b` in `s`, or `s.len()` when there is none.
pub open spec fn first_index_of(s: Seq<u8>, b: u8) -> nat
    decreases s.len(),
{
    if s.len() == 0 {
        0
    } else if s[0] == b {
        0
    } else {
        1 + first_index_of(s.skip(1), b)
    }
}

/// The lines of a text: split at each newline; a final newline ends the last
/// line rather than starting an empty one.
pub open spec fn split_lines(t: Seq<u8>) -> Seq<Seq<u8>>
    decreases t.len(),
{
    if t.len() == 0 {
        seq![]
    } else {
        let i = first_index_of(t, NEWLINE);
        if i < t.len() {
            seq![t.take(i as int)] + split_lines(t.skip(i + 1 as int))
        } else {
            seq![t]
        }
    }
}

/// A line without the carriage return of a CRLF line end.
pub open spec fn strip_cr(l: Seq<u8>) -> Seq<u8> {
    if l.len() > 0 && l.last() == CARRIAGE_RETURN {
        l.drop_last()
    } else {
        l
    }
}

pub open spec fn is_blank(l: Seq<u8>) -> bool {
    strip_cr(l).len() == 0
}

/// A row read as a record: exactly three comma-separated decimal fields,
/// each fitting in a `u64`.
pub open spec fn parse_row(line: Seq<u8>) -> Option<HistoryRecord> {
    let l = strip_cr(line);
    let i = first_index_of(l, COMMA);
    let rest = l.skip(i + 1 as int);
    let j = first_index_of(rest, COMMA);
    if i < l.len() && j < rest.len() {
        match (
            field_value(l.take(i as int)),
            field_value(rest.take(j as int)),
            field_value(rest.skip(j + 1 as int)),
        ) {
            (Some(w), Some(p), Some(e)) => Some(
                HistoryRecord { work_seconds: w, pause_seconds: p, end_unix_time: e },
            ),
            _ => None,
        }
    } else {
        None
    }
}

/// The records of the rows, in order; blank and unreadable rows give none.
pub open spec fn rows_records(rows: Seq<Seq<u8>>) -> Seq<HistoryRecord>
    decreases rows.len(),
{
    if rows.len() == 0 {
        seq![]
    } else {
        let prev = rows_records(rows.drop_last());
        match parse_row(rows.last()) {
            Some(r) => prev.push(r),
            None => prev,
        }
    }
}

/// The line numbers of the unreadable rows, where the first row has number `first`.
pub open spec fn corrupt_rows(rows: Seq<Seq<u8>>, first: int) -> Seq<int>
    decreases rows.len(),
{
    if rows.len() == 0 {
        seq![]
    } else {
        let prev = corrupt_rows(rows.drop_last(), first);
        if !is_blank(rows.last()) && parse_row(rows.last()) is None {
            prev.push(first + rows.len() - 1)
        } else {
            prev
        }
    }
}

/// The lines after the header.
pub open spec fn body_lines(t: Seq<u8>) -> Seq<Seq<u8>> {
    let ls = split_lines(t);
    if ls.len() == 0 {
        seq![]
    } else {
        ls.skip(1)
    }
}

/// The records a history file holds.
pub open spec fn history_records(t: Seq<u8>) -> Seq<HistoryRecord> {
    rows_records(body_lines(t))
}

/// The (1-based) line numbers of the rows of a history file that cannot be read.
pub open spec fn history_corrupt_lines(t: Seq<u8>) -> Seq<int> {
    corrupt_rows(body_lines(t), 2)
}

/// The result of reading a history file: the records of every readable row,
/// and the line numbers of the rows that could not be read.
pub struct HistoryScan {
    pub records: Vec<HistoryRecord>,
    pub corrupt_lines: Vec<usize>,
}

enum RowOutcome {
    Blank,
    Record(HistoryRecord),
    Corrupt,
}

proof fn lemma_first_index_at(s: Seq<u8>, b: u8, n: int)
    requires
        0 <= n <= s.len(),
        forall|k: int| 0 <= k < n ==> s[k] != b,
        n < s.len() ==> s[n] == b,
    ensures
        first_index_of(s, b) == n,
    decreases n,
{
    if n > 0 {
        lemma_first_index_at(s.skip(1), b, n - 1);
    }
}

proof fn lemma_first_index_bound(s: Seq<u8>, b: u8)
    ensures
        first_index_of(s, b) <= s.len(),
        first_index_of(s, b) < s.len() ==> s[first_index_of(s, b) as int] == b,
        forall|k: int| 0 <= k < first_index_of(s, b) ==> s[k] != b,
    decreases s.len(),
{
    if s.len() > 0 && s[0] != b {
        lemma_first_index_bound(s.skip(1), b);
        assert forall|k: int| 0 <= k < first_index_of(s, b) implies s[k] != b by {
            if k > 0 {
                assert(s[k] == s.skip(1)[k - 1]);
            }
        }
    }
}

/// Position of the first `b` in `t[lo..hi]`, or `hi`.
fn find_byte(t: &[u8], b: u8, lo: usize, hi: usize) -> (r: usize)
    requires
        lo <= hi <= t@.len(),
    ensures
        lo <= r <= hi,
        r == lo + first_index_of(t@.subrange(lo as int, hi as int), b),
{
    let mut i: usize = lo;
    while i < hi && t[i] != b
        invariant
            lo <= i <= hi <= t@.len(),
            forall|k: int| lo <= k < i ==> t@[k] != b,
        decreases hi - i,
    {
        i = i + 1;
    }
    proof {
        lemma_first_index_at(t@.subrange(lo as int, hi as int), b, i - lo);
    }
    i
}

#[verifier::rlimit(40)]
fn parse_row_at(t: &[u8], lo: usize, hi: usize) -> (r: RowOutcome)
    requires
        lo <= hi <= t@.len(),
    ensures
        ({
            let line = t@.subrange(lo as int, hi as int);
            match r {
                RowOutcome::Blank => is_blank(line),
                RowOutcome::Record(rec) => !is_blank(line) && parse_row(line) == Some(rec),
                RowOutcome::Corrupt => !is_blank(line) && parse_row(line) is None,
            }
        }),
{
    let ghost line = t@.subrange(lo as int, hi as int);
    let mut end = hi;
    if hi > lo && t[hi - 1] == CARRIAGE_RETURN {
        end = hi - 1;
    }
    let ghost l = strip_cr(line);
    assert(l =~= t@.subrange(lo as int, end as int));
    if end == lo {
        return RowOutcome::Blank;
    }
    let i = find_byte(t, COMMA, lo, end);
    if i == end {
        return RowOutcome::Corrupt;
    }
    let ghost rest = l.skip(i - lo + 1);
    assert(rest =~= t@.subrange(i + 1, end as int));
    let j = find_byte(t, COMMA, i + 1, end);
    if j == end {
        return RowOutcome::Corrupt;
    }
    assert(l.take(i - lo) =~= t@.subrange(lo as int, i as int));
    assert(rest.take(j - i - 1) =~= t@.subrange(i + 1, j as int));
    assert(rest.skip(j - i) =~= t@.subrange(j + 1, end as int));
    let w = parse_field(t, lo, i);
    let p = parse_field(t, i + 1, j);
    let e = parse_field(t, j + 1, end);
    match (w, p, e) {
        (Some(w), Some(p), Some(e)) => RowOutcome::Record(
            HistoryRecord { work_seconds: w, pause_seconds: p, end_unix_time: e },
        ),
        _ => RowOutcome::Corrupt,
    }
}

/// Reads every row after the header. A row that cannot be read is skipped
/// and its line number reported; it never stops the rest of the scan.
pub fn read_all(text: &[u8]) -> (r: HistoryScan)
    ensures
        r.records@ == history_records(text@),
        r.corrupt_lines@.len() == history_corrupt_lines(text@).len(),
        forall|k: int|
            0 <= k < r.corrupt_lines@.len() ==> r.corrupt_lines@[k] as int == history_corrupt_lines(
                text@,
            )[k],
{
    let mut records: Vec<HistoryRecord> = Vec::new();
    let mut corrupt_lines: Vec<usize> = Vec::new();
    let mut start: usize = 0;
    let mut line_no: usize = 0;
    let ghost mut done: Seq<Seq<u8>> = seq![];
    let ghost mut body: Seq<Seq<u8>> = seq![];
    assert(text@.skip(0) =~= text@);
    assert(done + split_lines(text@.skip(0)) =~= split_lines(text@));
    while start < text.len()
        invariant
            start <= text@.len(),
            line_no == done.len(),
            line_no <= start,
            split_lines(text@) == done + split_lines(text@.skip(start as int)),
            body == (if done.len() == 0 { seq![] } else { done.skip(1) }),
            records@ == rows_records(body),
            corrupt_lines@.len() == corrupt_rows(body, 2).len(),
            forall|k: int|
                0 <= k < corrupt_lines@.len() ==> corrupt_lines@[k] as int == corrupt_rows(
                    body,
                    2,
                )[k],
        decreases text@.len() - start,
    {
        let end = find_byte(text, NEWLINE, start, text.len());
        let ghost s = text@.skip(start as int);
        let ghost line = text@.subrange(start as int, end as int);
        proof {
            assert(s =~= text@.subrange(start as int, text@.len() as int));
            lemma_first_index_bound(s, NEWLINE);
            assert(s.take(end - start) =~= line);
            if end < text.len() {
                assert(s.skip(end - start + 1) =~= text@.skip(end + 1));
                assert(split_lines(s) == seq![line] + split_lines(text@.skip(end + 1)));
            } else {
                assert(s =~= line);
                assert(split_lines(s) == seq![line]);
                assert(text@.skip(text@.len() as int) =~= Seq::<u8>::empty());
            }
        }
        if line_no > 0 {
            let outcome = parse_row_at(text, start, end);
            let ghost nb = body.push(line);
            proof {
                assert(nb.drop_last() =~= body);
            }
            match outcome {
                RowOutcome::Record(rec) => {
                    records.push(rec);
                },
                RowOutcome::Corrupt => {
                    corrupt_lines.push(line_no + 1);
                },
                RowOutcome::Blank => {},
            }
            proof {
                assert(done.push(line).skip(1) =~= body.push(line));
                body = nb;
            }
        }
        proof {
            assert(done + split_lines(s) =~= done.push(line) + split_lines(
                if end < text.len() { text@.skip(end + 1) } else { text@.skip(text@.len() as int) },
            ));
            done = done.push(line);
        }
        line_no = line_no + 1;
        if end < text.len() {
            start = end + 1;
        } else {
            start = text.len();
        }
    }
    proof {
        assert(text@.skip(start as int) =~= Seq::<u8>::empty());
        assert(split_lines(text@) =~= done);
    }
    HistoryScan { records, corrupt_lines }
}

/// The header row that starts a new history file.
pub fn header_row() -> (r: Vec<u8>)
    ensures
        r@ == header_bytes(),
{
    let r: Vec<u8> = vec![87u8, 111, 114, 107, 44, 80, 108, 97, 121, 44, 69, 110, 100, 10];
    assert(r@ =~= header_bytes());
    r
}

/// The row that stores `r`, newline included.
pub fn record_row(r: &HistoryRecord) -> (out: Vec<u8>)
    ensures
        out@ == row_bytes(*r),
{
    let mut out: Vec<u8> = Vec::new();
    push_decimal(r.work_seconds, &mut out);
    out.push(COMMA);
    push_decimal(r.pause_seconds, &mut out);
    out.push(COMMA);
    push_decimal(r.end_unix_time, &mut out);
    out.push(NEWLINE);
    assert(out@ =~= row_bytes(*r));
    out
}

proof fn lemma_first_index_concat(a: Seq<u8>, b: Seq<u8>, x: u8)
    requires
        first_index_of(a, x) < a.len(),
    ensures
        first_index_of(a + b, x) == first_index_of(a, x),
{
    lemma_first_index_bound(a, x);
    let n = first_index_of(a, x) as int;
    assert forall|k: int| 0 <= k < n implies (a + b)[k] != x by {
        assert((a + b)[k] == a[k]);
    }
    assert((a + b)[n] == a[n]);
    lemma_first_index_at(a + b, x, n);
}

/// Splitting a text whose first part ends a line splits each part on its own.
proof fn lemma_split_concat(a: Seq<u8>, b: Seq<u8>)
    requires
        a.len() == 0 || a.last() == NEWLINE,
    ensures
        split_lines(a + b) == split_lines(a) + split_lines(b),
    decreases a.len(),
{
    if a.len() == 0 {
        assert(a + b =~= b);
        assert(split_lines(a) + split_lines(b) =~= split_lines(b));
    } else {
        lemma_first_index_bound(a, NEWLINE);
        let i = first_index_of(a, NEWLINE) as int;
        if i == a.len() {
            assert(a[a.len() - 1] != NEWLINE);
        }
        lemma_first_index_concat(a, b, NEWLINE);
        let tail = a.skip(i + 1);
        assert((a + b).take(i) =~= a.take(i));
        assert((a + b).skip(i + 1) =~= tail + b);
        if tail.len() > 0 {
            assert(tail.last() == a.last());
        }
        lemma_split_concat(tail, b);
        assert(split_lines(a + b) == seq![a.take(i)] + split_lines(tail + b));
        assert(split_lines(a) == seq![a.take(i)] + split_lines(tail));
        assert(seq![a.take(i)] + (split_lines(tail) + split_lines(b)) =~= (seq![a.take(i)]
            + split_lines(tail)) + split_lines(b));
    }
}

proof fn lemma_split_one_line(c: Seq<u8>)
    requires
        forall|k: int| 0 <= k < c.len() ==> c[k] != NEWLINE,
    ensures
        split_lines(c.push(NEWLINE)) == seq![c],
{
    let t = c.push(NEWLINE);
    assert forall|k: int| 0 <= k < c.len() implies t[k] != NEWLINE by {
        assert(t[k] == c[k]);
    }
    lemma_first_index_at(t, NEWLINE, c.len() as int);
    assert(t.take(c.len() as int) =~= c);
    assert(t.skip(c.len() + 1 as int) =~= Seq::<u8>::empty());
    assert(seq![c] + split_lines(Seq::<u8>::empty()) =~= seq![c]);
}

proof fn lemma_rows_records_concat(x: Seq<Seq<u8>>, y: Seq<Seq<u8>>)
    ensures
        rows_records(x + y) == rows_records(x) + rows_records(y),
    decreases y.len(),
{
    if y.len() == 0 {
        assert(x + y =~= x);
        assert(rows_records(x) + rows_records(y) =~= rows_records(x));
    } else {
        lemma_rows_records_concat(x, y.drop_last());
        assert((x + y).drop_last() =~= x + y.drop_last());
        assert((x + y).last() == y.last());
        match parse_row(y.last()) {
            Some(r) => {
                assert(rows_records(x) + rows_records(y) =~= (rows_records(x) + rows_records(
                    y.drop_last(),
                )).push(r));
            },
            None => {},
        }
    }
}

proof fn lemma_no_byte_in_digits(d: Seq<u8>, x: u8)
    requires
        all_digits(d),
        !is_digit(x),
    ensures
        forall|k: int| 0 <= k < d.len() ==> d[k] != x,
{
}

/// Every record's row reads back as that record.
pub proof fn lemma_parse_row_text(r: HistoryRecord)
    ensures
        parse_row(row_text(r)) == Some(r),
        forall|k: int| 0 <= k < row_text(r).len() ==> row_text(r)[k] != NEWLINE,
{
    let dw = digits_of(r.work_seconds as nat);
    let dp = digits_of(r.pause_seconds as nat);
    let de = digits_of(r.end_unix_time as nat);
    lemma_digits_of(r.work_seconds as nat);
    lemma_digits_of(r.pause_seconds as nat);
    lemma_digits_of(r.end_unix_time as nat);
    crate::decimal::lemma_field_value_of_digits(r.work_seconds);
    crate::decimal::lemma_field_value_of_digits(r.pause_seconds);
    crate::decimal::lemma_field_value_of_digits(r.end_unix_time);
    let l = row_text(r);
    assert(l =~= dw + seq![COMMA] + dp + seq![COMMA] + de);
    assert(strip_cr(l) == l) by {
        assert(l.last() == de.last());
        assert(is_digit(de[de.len() - 1]));
    }
    lemma_no_byte_in_digits(dw, COMMA);
    assert forall|k: int| 0 <= k < dw.len() implies l[k] != COMMA by {
        assert(l[k] == dw[k]);
    }
    lemma_first_index_at(l, COMMA, dw.len() as int);
    let rest = l.skip(dw.len() + 1 as int);
    assert(rest =~= dp + seq![COMMA] + de);
    lemma_no_byte_in_digits(dp, COMMA);
    assert forall|k: int| 0 <= k < dp.len() implies rest[k] != COMMA by {
        assert(rest[k] == dp[k]);
    }
    lemma_first_index_at(rest, COMMA, dp.len() as int);
    assert(l.take(dw.len() as int) =~= dw);
    assert(rest.take(dp.len() as int) =~= dp);
    assert(rest.skip(dp.len() + 1 as int) =~= de);
    lemma_no_byte_in_digits(dw, NEWLINE);
    lemma_no_byte_in_digits(dp, NEWLINE);
    lemma_no_byte_in_digits(de, NEWLINE);
    assert forall|k: int| 0 <= k < l.len() implies l[k] != NEWLINE by {
        if k < dw.len() {
            assert(l[k] == dw[k]);
        } else if k == dw.len() {
        } else if k < dw.len() + 1 + dp.len() {
            assert(l[k] == dp[k - dw.len() - 1]);
        } else if k == dw.len() + 1 + dp.len() {
        } else {
            assert(l[k] == de[k - dw.len() - dp.len() - 2]);
        }
    }
}

proof fn lemma_body_concat(t: Seq<u8>, s: Seq<u8>)
    requires
        t.len() > 0,
        t.last() == NEWLINE,
    ensures
        body_lines(t + s) == body_lines(t) + split_lines(s),
{
    lemma_split_concat(t, s);
    assert(split_lines(t).len() > 0);
    assert((split_lines(t) + split_lines(s)).skip(1) =~= split_lines(t).skip(1) + split_lines(s));
}

/// Appending a record's row to a history file whose last line is complete
/// adds exactly that record to what the file reads as.
pub proof fn lemma_append_then_read(t: Seq<u8>, r: HistoryRecord)
    requires
        t.len() > 0,
        t.last() == NEWLINE,
    ensures
        history_records(t + row_bytes(r)) == history_records(t).push(r),
{
    lemma_parse_row_text(r);
    lemma_body_concat(t, row_bytes(r));
    lemma_split_one_line(row_text(r));
    lemma_rows_records_concat(body_lines(t), seq![row_text(r)]);
    let one = seq![row_text(r)];
    assert(one.drop_last() =~= Seq::<Seq<u8>>::empty());
    assert(one.last() == row_text(r));
    assert(rows_records(one.drop_last()) == Seq::<HistoryRecord>::empty());
    assert(rows_records(one) =~= seq![r]);
}

/// An unreadable row costs only itself: the file reads as the same records as
/// without it.
pub proof fn lemma_corrupt_row_skipped(a: Seq<u8>, bad: Seq<u8>, b: Seq<u8>)
    requires
        a.len() > 0,
        a.last() == NEWLINE,
        forall|k: int| 0 <= k < bad.len() ==> bad[k] != NEWLINE,
        parse_row(bad) is None,
    ensures
        history_records(a + bad.push(NEWLINE) + b) == history_records(a + b),
{
    let m = bad.push(NEWLINE);
    lemma_split_one_line(bad);
    lemma_split_concat(a, m);
    let am = a + m;
    assert(am.last() == NEWLINE);
    lemma_body_concat(am, b);
    lemma_body_concat(a, m);
    lemma_body_concat(a, b);
    assert(a + m + b == am + b);
    lemma_rows_records_concat(body_lines(a), seq![bad]);
    lemma_rows_records_concat(body_lines(a) + seq![bad], split_lines(b));
    lemma_rows_records_concat(body_lines(a), split_lines(b));
    let one = seq![bad];
    assert(one.drop_last() =~= Seq::<Seq<u8>>::empty());
    assert(one.last() == bad);
    assert(rows_records(one.drop_last()) == Seq::<HistoryRecord>::empty());
    assert(rows_records(one) =~= Seq::<HistoryRecord>::empty());
    assert(rows_records(body_lines(a)) + Seq::<HistoryRecord>::empty() =~= rows_records(
        body_lines(a),
    ));
}

/// The rows of `records`, in order.
pub open spec fn rows_bytes(records: Seq<HistoryRecord>) -> Seq<u8>
    decreases records.len(),
{
    if records.len() == 0 {
        seq![]
    } else {
        rows_bytes(records.drop_last()) + row_bytes(records.last())
    }
}

/// A history file as this library writes it: the header, then one row per
/// record appended.
pub open spec fn written_file(records: Seq<HistoryRecord>) -> Seq<u8> {
    header_bytes() + rows_bytes(records)
}

proof fn lemma_header_reads_empty()
    ensures
        history_records(header_bytes()) == Seq::<HistoryRecord>::empty(),
{
    let h = header_bytes();
    let names = h.take(13);
    assert(h =~= names.push(NEWLINE));
    assert forall|k: int| 0 <= k < names.len() implies names[k] != NEWLINE by {
        assert(names[k] == h[k]);
    }
    lemma_split_one_line(names);
    assert(body_lines(h) =~= Seq::<Seq<u8>>::empty());
}

/// A file written by this library reads back as exactly the records appended
/// to it, in order; so after an append the last record read is the one
/// appended.
pub proof fn lemma_written_file_reads_back(records: Seq<HistoryRecord>)
    ensures
        history_records(written_file(records)) == records,
        written_file(records).len() > 0,
        written_file(records).last() == NEWLINE,
    decreases records.len(),
{
    if records.len() == 0 {
        lemma_header_reads_empty();
        assert(written_file(records) =~= header_bytes());
    } else {
        let prev = records.drop_last();
        let r = records.last();
        lemma_written_file_reads_back(prev);
        assert(written_file(records) =~= written_file(prev) + row_bytes(r));
        lemma_append_then_read(written_file(prev), r);
        assert(prev.push(r) =~= records);
    }
}

/// Appending a record's row to a file written by this library adds exactly
/// that record to what the file reads as.
pub proof fn lemma_append_to_written_file(records: Seq<HistoryRecord>, r: HistoryRecord)
    ensures
        history_records(written_file(records) + row_bytes(r)) == records.push(r),
        history_records(written_file(records) + row_bytes(r)).last() == r,
{
    lemma_written_file_reads_back(records);
    lemma_append_then_read(written_file(records), r);
}

} // verus!
