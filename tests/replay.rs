use demoterm::error::ErrorKind;
use demoterm::event::TerminalEvent;
use demoterm::replay::{replay, Replayer};

#[test]
fn replay_scenario_two_frames() {
    let log = vec![
        TerminalEvent::input(0, "echo hi\n".to_string()),
        TerminalEvent::output(50, "hi\n".to_string()),
    ];
    let states = replay(&log).unwrap();
    assert_eq!(states, vec!["echo hi\n".to_string(), "echo hi\nhi\n".to_string()]);
    assert_eq!(log.len(), 2);
}

#[test]
fn replay_empty_log_reports_no_events() {
    assert_eq!(replay(&Vec::new()), Err(ErrorKind::NoEvents));
}

#[test]
fn replay_twice_is_identical() {
    let log = vec![
        TerminalEvent::output(1, "a".to_string()),
        TerminalEvent::input(2, "b".to_string()),
        TerminalEvent::output(2, "".to_string()),
        TerminalEvent::output(3, "c".to_string()),
    ];
    let first = replay(&log).unwrap();
    let second = replay(&log).unwrap();
    assert_eq!(first, second);
    assert_eq!(first.len(), log.len());
}

#[test]
fn replay_states_are_cumulative() {
    let log = vec![
        TerminalEvent::output(1, "a".to_string()),
        TerminalEvent::input(2, "b".to_string()),
        TerminalEvent::output(2, "".to_string()),
        TerminalEvent::output(3, "c\u{fffd}".to_string()),
    ];
    let states = replay(&log).unwrap();
    assert_eq!(states, vec!["a", "ab", "ab", "abc\u{fffd}"]);
}

#[test]
fn replayer_hands_out_states_lazily() {
    let log = vec![
        TerminalEvent::input(0, "echo hi\n".to_string()),
        TerminalEvent::output(50, "hi\n".to_string()),
    ];
    let mut r = Replayer::new(&log).ok().unwrap();
    assert_eq!(r.next_state(), Some("echo hi\n".to_string()));
    assert_eq!(r.next_state(), Some("echo hi\nhi\n".to_string()));
    assert_eq!(r.next_state(), None);
    assert_eq!(r.next_state(), None);
    let empty: Vec<TerminalEvent> = Vec::new();
    assert_eq!(Replayer::new(&empty).err(), Some(ErrorKind::NoEvents));
}

