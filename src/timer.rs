//! The session timer: work and pause seconds derived from the absolute time
//! elapsed since the session began, a pause flag, and a one-time finalization.
use vstd::prelude::*;
use crate::history::HistoryRecord;

verus! {

/// What a timer holds, as mathematics.
pub struct TimerModel {
    pub work: nat,
    pub pause: nat,
    pub paused: bool,
    /// Set once the session is finalized; the machine then no longer changes.
    pub snapshot: Option<HistoryRecord>,
}

impl TimerModel {
    pub open spec fn is_quit(self) -> bool {
        self.snapshot is Some
    }

    /// The bucket of the current mode absorbs all elapsed time not yet held
    /// by the other bucket.
    pub open spec fn ticked(self, elapsed: nat) -> TimerModel {
        if self.is_quit() {
            self
        } else if self.paused {
            TimerModel { pause: (elapsed - self.work) as nat, ..self }
        } else {
            TimerModel { work: (elapsed - self.pause) as nat, ..self }
        }
    }

    pub open spec fn toggled(self) -> TimerModel {
        if self.is_quit() {
            self
        } else {
            TimerModel { paused: !self.paused, ..self }
        }
    }

    pub open spec fn finalized(self, now_unix: u64) -> TimerModel {
        if self.is_quit() {
            self
        } else {
            TimerModel {
                snapshot: Some(
                    HistoryRecord {
                        work_seconds: self.work as u64,
                        pause_seconds: self.pause as u64,
                        end_unix_time: now_unix,
                    },
                ),
                ..self
            }
        }
    }
}

/// A key press, as far as the timer cares.
#[derive(Clone, Copy, Debug, PartialEq, Eq, Structural)]
pub enum KeyEvent {
    Pause,
    Quit,
    Other,
}

/// What the loop driving the timer does after an event.
#[derive(Clone, Copy, Debug, PartialEq, Eq, Structural)]
pub enum TickAction {
    /// Keep going: draw and wait for the next period.
    Continue,
    /// The session just ended: store this record once, then stop.
    Persist(HistoryRecord),
    /// The session had already ended: stop without storing anything.
    Stop,
}

/// `p` pauses or resumes, `q` quits.
pub fn classify_key(c: char) -> (r: KeyEvent)
    ensures
        r == (if c == 'p' {
            KeyEvent::Pause
        } else if c == 'q' {
            KeyEvent::Quit
        } else {
            KeyEvent::Other
        }),
{
    if c == 'p' {
        KeyEvent::Pause
    } else if c == 'q' {
        KeyEvent::Quit
    } else {
        KeyEvent::Other
    }
}

pub struct Timer {
    work_seconds: u64,
    pause_seconds: u64,
    paused: bool,
    snapshot: Option<HistoryRecord>,
}

impl View for Timer {
    type V = TimerModel;

    closed spec fn view(&self) -> TimerModel {
        TimerModel {
            work: self.work_seconds as nat,
            pause: self.pause_seconds as nat,
            paused: self.paused,
            snapshot: self.snapshot,
        }
    }
}

impl Timer {
    /// Both buckets together fit in a `u64`.
    pub open spec fn wf(&self) -> bool {
        self@.work + self@.pause <= u64::MAX
    }

    /// A running session with nothing counted yet.
    pub fn new() -> (t: Timer)
        ensures
            t.wf(),
            t@ == (TimerModel { work: 0, pause: 0, paused: false, snapshot: None }),
    {
        Timer { work_seconds: 0, pause_seconds: 0, paused: false, snapshot: None }
    }

    pub fn work_seconds(&self) -> (r: u64)
        ensures
            r == self@.work,
    {
        self.work_seconds
    }

    pub fn pause_seconds(&self) -> (r: u64)
        ensures
            r == self@.pause,
    {
        self.pause_seconds
    }

    pub fn is_paused(&self) -> (r: bool)
        ensures
            r == self@.paused,
    {
        self.paused
    }

    pub fn is_quit(&self) -> (r: bool)
        ensures
            r == self@.is_quit(),
    {
        self.snapshot.is_some()
    }

    /// The seconds accounted so far: the elapsed time of the last tick.
    pub fn accounted_seconds(&self) -> (r: u64)
        requires
            self.wf(),
        ensures
            r == self@.work + self@.pause,
    {
        self.work_seconds + self.pause_seconds
    }

    /// Brings the buckets up to `elapsed_seconds` since the session began.
    /// Elapsed time never runs backwards, so it is at least what is already
    /// accounted.
    pub fn tick(&mut self, elapsed_seconds: u64)
        requires
            old(self)@.work + old(self)@.pause <= elapsed_seconds,
        ensures
            final(self).wf(),
            final(self)@ == old(self)@.ticked(elapsed_seconds as nat),
            !old(self)@.is_quit() ==> final(self)@.work + final(self)@.pause == elapsed_seconds,
            final(self)@.work >= old(self)@.work,
            final(self)@.pause >= old(self)@.pause,
    {
        if self.snapshot.is_some() {
            return;
        }
        if self.paused {
            self.pause_seconds = elapsed_seconds - self.work_seconds;
        } else {
            self.work_seconds = elapsed_seconds - self.pause_seconds;
        }
    }

    /// Switches between running and paused; a finalized session stays as it is.
    pub fn toggle_pause(&mut self)
        ensures
            final(self)@ == old(self)@.toggled(),
            old(self).wf() ==> final(self).wf(),
    {
        if self.snapshot.is_none() {
            self.paused = !self.paused;
        }
    }

    /// Ends the session at `now_unix` and returns its record. Once a session
    /// is finalized, every later call returns that same record.
    pub fn finalize(&mut self, now_unix: u64) -> (r: HistoryRecord)
        ensures
            final(self)@ == old(self)@.finalized(now_unix),
            final(self)@.snapshot == Some(r),
            old(self)@.is_quit() ==> old(self)@.snapshot == Some(r),
            !old(self)@.is_quit() ==> r == (HistoryRecord {
                work_seconds: old(self)@.work as u64,
                pause_seconds: old(self)@.pause as u64,
                end_unix_time: now_unix,
            }),
            old(self).wf() ==> final(self).wf(),
    {
        match self.snapshot {
            Some(r) => r,
            None => {
                let r = HistoryRecord {
                    work_seconds: self.work_seconds,
                    pause_seconds: self.pause_seconds,
                    end_unix_time: now_unix,
                };
                self.snapshot = Some(r);
                r
            },
        }
    }

    /// Applies a key event that arrived during a period. A quit ends the
    /// session, and only the first one asks for the record to be stored.
    pub fn handle_event(&mut self, event: Option<KeyEvent>, now_unix: u64) -> (a: TickAction)
        ensures
            old(self).wf() ==> final(self).wf(),
            match event {
                Some(KeyEvent::Pause) => final(self)@ == old(self)@.toggled() && a
                    == TickAction::Continue,
                Some(KeyEvent::Quit) => final(self)@ == old(self)@.finalized(now_unix) && if old(
                    self,
                )@.is_quit() {
                    a == TickAction::Stop
                } else {
                    a == TickAction::Persist(final(self)@.snapshot->Some_0)
                },
                _ => final(self)@ == old(self)@ && a == TickAction::Continue,
            },
    {
        match event {
            Some(KeyEvent::Pause) => {
                self.toggle_pause();
                TickAction::Continue
            },
            Some(KeyEvent::Quit) => {
                if self.snapshot.is_some() {
                    TickAction::Stop
                } else {
                    let r = self.finalize(now_unix);
                    TickAction::Persist(r)
                }
            },
            _ => TickAction::Continue,
        }
    }
}

/// The machine after ticks at each of `elapsed`, in order.
pub open spec fn run_ticks(m: TimerModel, elapsed: Seq<u64>) -> TimerModel
    decreases elapsed.len(),
{
    if elapsed.len() == 0 {
        m
    } else {
        run_ticks(m, elapsed.drop_last()).ticked(elapsed.last() as nat)
    }
}

pub open spec fn non_decreasing(s: Seq<u64>) -> bool {
    forall|i: int, j: int| 0 <= i <= j < s.len() ==> s[i] <= s[j]
}

proof fn lemma_run_ticks_total(m: TimerModel, elapsed: Seq<u64>)
    requires
        !m.is_quit(),
        non_decreasing(elapsed),
        elapsed.len() > 0 ==> m.work + m.pause <= elapsed[0],
    ensures
        !run_ticks(m, elapsed).is_quit(),
        elapsed.len() > 0 ==> run_ticks(m, elapsed).work + run_ticks(m, elapsed).pause
            == elapsed.last(),
        elapsed.len() == 0 ==> run_ticks(m, elapsed) == m,
    decreases elapsed.len(),
{
    if elapsed.len() > 0 {
        let p = elapsed.drop_last();
        assert(non_decreasing(p));
        lemma_run_ticks_total(m, p);
        if p.len() > 0 {
            assert(p.last() <= elapsed.last());
        }
    }
}

/// Over any run of ticks whose elapsed times never decrease, starting from a
/// running session that has accounted no more than the first of them, work
/// plus pause equals the elapsed time after every tick.
pub proof fn lemma_ticks_account_elapsed(m: TimerModel, elapsed: Seq<u64>)
    requires
        !m.is_quit(),
        non_decreasing(elapsed),
        elapsed.len() > 0 ==> m.work + m.pause <= elapsed[0],
    ensures
        forall|k: int|
            1 <= k <= elapsed.len() ==> #[trigger] run_ticks(m, elapsed.take(k)).work + run_ticks(
                m,
                elapsed.take(k),
            ).pause == elapsed[k - 1],
{
    assert forall|k: int| 1 <= k <= elapsed.len() implies #[trigger] run_ticks(
        m,
        elapsed.take(k),
    ).work + run_ticks(m, elapsed.take(k)).pause == elapsed[k - 1] by {
        let p = elapsed.take(k);
        assert(non_decreasing(p));
        assert(p[0] == elapsed[0]);
        lemma_run_ticks_total(m, p);
    }
}

/// Finalizing a second time changes nothing and yields the same record.
pub proof fn lemma_finalize_idempotent(m: TimerModel, first_now: u64, second_now: u64)
    ensures
        m.finalized(first_now).finalized(second_now) == m.finalized(first_now),
        m.finalized(first_now).finalized(second_now).snapshot == m.finalized(first_now).snapshot,
{
}

/// Pausing and resuming within one period leaves the machine as it was, so
/// only the elapsed time of later ticks moves the work count.
pub proof fn lemma_double_toggle(m: TimerModel, elapsed: nat)
    ensures
        m.toggled().toggled() == m,
        m.toggled().toggled().ticked(elapsed) == m.ticked(elapsed),
        !m.is_quit() && !m.paused ==> !m.toggled().toggled().paused && m.toggled().toggled().work
            == m.work,
{
}

} // verus!
