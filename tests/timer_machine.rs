use work_timer::history::HistoryRecord;
use work_timer::timer::{classify_key, KeyEvent, TickAction, Timer};

#[test]
fn new_timer_is_running_and_empty() {
    let t = Timer::new();
    assert_eq!(t.work_seconds(), 0);
    assert_eq!(t.pause_seconds(), 0);
    assert!(!t.is_paused());
    assert!(!t.is_quit());
}

#[test]
fn ticks_account_all_elapsed_time() {
    let mut t = Timer::new();
    t.tick(5);
    assert_eq!((t.work_seconds(), t.pause_seconds()), (5, 0));
    t.toggle_pause();
    t.tick(9);
    assert_eq!((t.work_seconds(), t.pause_seconds()), (5, 4));
    t.toggle_pause();
    t.tick(12);
    assert_eq!((t.work_seconds(), t.pause_seconds()), (8, 4));
    assert_eq!(t.accounted_seconds(), 12);
}

#[test]
fn missed_ticks_do_not_drift() {
    let mut t = Timer::new();
    t.tick(1);
    t.tick(100);
    assert_eq!(t.work_seconds() + t.pause_seconds(), 100);
    assert_eq!(t.work_seconds(), 100);
}

#[test]
fn finalize_twice_gives_the_same_record() {
    let mut t = Timer::new();
    t.tick(30);
    let first = t.finalize(1_718_000_000);
    let second = t.finalize(1_718_999_999);
    assert_eq!(first, second);
    assert_eq!(
        first,
        HistoryRecord { work_seconds: 30, pause_seconds: 0, end_unix_time: 1_718_000_000 }
    );
}

#[test]
fn finalized_timer_ignores_ticks_and_toggles() {
    let mut t = Timer::new();
    t.tick(10);
    t.finalize(50);
    t.toggle_pause();
    t.tick(20);
    assert!(!t.is_paused());
    assert_eq!((t.work_seconds(), t.pause_seconds()), (10, 0));
}

#[test]
fn pause_pause_in_one_period_leaves_work_alone() {
    let mut t = Timer::new();
    t.tick(7);
    t.toggle_pause();
    t.toggle_pause();
    assert!(!t.is_paused());
    assert_eq!(t.work_seconds(), 7);
    t.tick(10);
    assert_eq!((t.work_seconds(), t.pause_seconds()), (10, 0));
}

#[test]
fn keys_map_to_events() {
    assert_eq!(classify_key('p'), KeyEvent::Pause);
    assert_eq!(classify_key('q'), KeyEvent::Quit);
    assert_eq!(classify_key('x'), KeyEvent::Other);
    assert_eq!(classify_key('P'), KeyEvent::Other);
}

#[test]
fn quit_persists_once_then_stops() {
    let mut t = Timer::new();
    t.tick(3);
    assert_eq!(t.handle_event(None, 0), TickAction::Continue);
    assert_eq!(t.handle_event(Some(KeyEvent::Other), 0), TickAction::Continue);
    assert_eq!(t.handle_event(Some(KeyEvent::Pause), 0), TickAction::Continue);
    assert!(t.is_paused());
    t.tick(5);
    let a = t.handle_event(Some(KeyEvent::Quit), 77);
    assert_eq!(
        a,
        TickAction::Persist(HistoryRecord { work_seconds: 3, pause_seconds: 2, end_unix_time: 77 })
    );
    assert_eq!(t.handle_event(Some(KeyEvent::Quit), 99), TickAction::Stop);
}
