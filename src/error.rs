//! What can go wrong around a session or a query.
use vstd::prelude::*;

verus! {

#[derive(Clone, Copy, Debug, PartialEq, Eq, Structural)]
pub enum TimerError {
    /// The history file could not be created, opened or written.
    Persistence,
    /// A row of the history file could not be read; the 1-based line number.
    CorruptRecord { line: usize },
    /// A date range whose end comes before its start.
    InvalidRange,
    /// No home directory, so no place for the history file.
    MissingHomeDirectory,
}

/// The errors of the unreadable rows that a scan reported, in line order.
pub fn corrupt_record_errors(lines: &Vec<usize>) -> (r: Vec<TimerError>)
    ensures
        r@.len() == lines@.len(),
        forall|i: int| 0 <= i < r@.len() ==> r@[i] == (TimerError::CorruptRecord { line: lines@[i] }),
{
    let mut r: Vec<TimerError> = Vec::new();
    let mut i: usize = 0;
    while i < lines.len()
        invariant
            i <= lines@.len(),
            r@.len() == i,
            forall|k: int| 0 <= k < i ==> r@[k] == (TimerError::CorruptRecord { line: lines@[k] }),
        decreases lines@.len() - i,
    {
        r.push(TimerError::CorruptRecord { line: lines[i] });
        i = i + 1;
    }
    r
}

} // verus!
