use vocab_pop::entry::Entry;
use vocab_pop::parse::parse_vocab_text;
use vocab_pop::sched::{ticks_of_minutes, Action, Scheduler};
use vocab_pop::signal::{RunState, SignalChannel};

fn entry(word: &str, reading: Option<&str>, meaning: Option<&str>, codes: Option<&str>) -> Entry {
    Entry {
        word: word.to_owned(),
        reading: reading.map(|s| s.to_owned()),
        meaning: meaning.map(|s| s.to_owned()),
        codes: codes.map(|s| s.to_owned()),
    }
}

fn two_entries() -> Vec<Entry> {
    vec![
        entry("日", Some("hi"), None, None),
        entry("猫", Some("neko"), Some("cat"), Some("N5")),
    ]
}

#[test]
fn scenario_one_tick_interval_rotates_and_wraps() {
    let mut s = Scheduler::new(two_entries(), 1, false);
    // Five decision points, the run flag true and no signal pending:
    // show, sleep one tick, show, sleep, show — wrapping to the start.
    let script = vec![(true, false); 5];
    let shows = s.run_script(&script);
    assert_eq!(shows.len(), 3);
    assert_eq!(shows[0], ("日".to_owned(), "hi".to_owned()));
    assert_eq!(shows[1], ("猫".to_owned(), "neko — cat (N5)".to_owned()));
    assert_eq!(shows[2], ("日".to_owned(), "hi".to_owned()));
}

#[test]
fn full_cycle_shows_each_entry_once_and_returns_cursor() {
    let names = ["a", "b", "c", "d"];
    let entries: Vec<Entry> = names.iter().map(|w| entry(w, None, None, None)).collect();
    let mut s = Scheduler::new(entries, 5, false);
    assert_eq!(s.cursor, 0);
    // A persistent signal makes every step a show: one full cycle.
    let shows = s.run_script(&vec![(true, true); 4]);
    assert_eq!(s.cursor, 0);
    let titles: Vec<&str> = shows.iter().map(|p| p.0.as_str()).collect();
    assert_eq!(titles, names);
}

#[test]
fn force_mode_shows_first_entry_once() {
    let s = Scheduler::new(two_entries(), 1, false);
    let (title, body) = s.force_show();
    assert_eq!(title, "日");
    assert_eq!(body, "hi");
    // force_show takes the scheduler by shared reference: no state
    // moved, the waiting state is never entered.
    assert_eq!(s.cursor, 0);
}

#[test]
fn signal_coalesces_to_one_early_show() {
    let mut ch = SignalChannel::new();
    ch.send();
    ch.send();
    assert!(ch.try_receive());
    assert!(!ch.try_receive());

    let mut s = Scheduler::new(two_entries(), 100, false);
    // First step shows and enters the long wait.
    assert!(matches!(s.step(true, false), Action::Show { .. }));
    // Two rapid "show now" triggers, each consumed at one decision
    // point: exactly one early show follows.
    ch.send();
    ch.send();
    assert!(matches!(s.step(true, ch.try_receive()), Action::Show { .. }));
    assert!(matches!(s.step(true, ch.try_receive()), Action::Sleep));
}

#[test]
fn cancellation_stops_within_one_tick() {
    let mut s = Scheduler::new(two_entries(), 1000, false);
    assert!(matches!(s.step(true, false), Action::Show { .. }));
    assert!(matches!(s.step(true, false), Action::Sleep));
    // The flag goes false in mid-wait: the very next decision exits,
    // not one after the remaining 998 ticks.
    assert!(matches!(s.step(false, false), Action::Exit));
    // Stopped is terminal.
    assert!(matches!(s.step(true, true), Action::Exit));
}

#[test]
fn empty_vocabulary_constructs_no_scheduler() {
    let entries = parse_vocab_text("");
    assert!(entries.is_empty());
    assert!(Scheduler::try_new(entries, 60, true).is_none());
}

#[test]
fn nonempty_vocabulary_constructs_a_scheduler() {
    assert!(Scheduler::try_new(two_entries(), 60, false).is_some());
}

#[test]
fn shuffle_keeps_exactly_the_same_entries() {
    let names = ["a", "b", "c", "d", "e", "f", "g", "h"];
    let entries: Vec<Entry> = names.iter().map(|w| entry(w, None, None, None)).collect();
    let s = Scheduler::new(entries, 1, true);
    let mut words: Vec<String> = s.entries.iter().map(|e| e.word.clone()).collect();
    words.sort();
    let mut expected: Vec<String> = names.iter().map(|w| (*w).to_owned()).collect();
    expected.sort();
    assert_eq!(words, expected);
}

#[test]
fn run_flag_is_one_way() {
    let mut r = RunState::new();
    assert!(r.is_running());
    r.stop();
    assert!(!r.is_running());
}

#[test]
fn ticks_of_minutes_counts_seconds() {
    assert_eq!(ticks_of_minutes(1), Some(60));
    assert_eq!(ticks_of_minutes(90), Some(5400));
    assert_eq!(ticks_of_minutes(u64::MAX), None);
}
