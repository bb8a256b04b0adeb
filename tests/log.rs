use demoterm::checkpoint::{checkpoint, final_snapshot};
use demoterm::event::{EventLog, TerminalEvent};
use std::sync::{Arc, Mutex};

#[test]
fn append_keeps_insertion_order() {
    let mut log = EventLog::new();
    assert!(log.is_empty());
    log.append(TerminalEvent::output(9, "late".to_string()));
    log.append(TerminalEvent::input(1, "early".to_string()));
    let snap = log.snapshot();
    assert_eq!(log.len(), 2);
    assert_eq!(snap[0].payload, "late");
    assert_eq!(snap[1].payload, "early");
    assert_eq!(snap[0].timestamp, 9);
}

#[test]
fn snapshot_is_a_point_in_time_copy() {
    let mut log = EventLog::new();
    log.append(TerminalEvent::output(1, "a".to_string()));
    let snap = log.snapshot();
    log.append(TerminalEvent::output(2, "b".to_string()));
    assert_eq!(snap.len(), 1);
    assert_eq!(log.len(), 2);
}

#[test]
fn interleaved_appends_lose_and_duplicate_nothing() {
    // Several producers share the log behind one lock; their appends are
    // admitted in an arbitrary interleaving.
    let log = Arc::new(Mutex::new(EventLog::new()));
    let producers: u128 = 4;
    let per: u128 = 250;
    let mut next = vec![0u128; producers as usize];
    let mut seed: u64 = 12345;
    let mut total: u128 = 0;
    while total < producers * per {
        seed = seed.wrapping_mul(6364136223846793005).wrapping_add(1442695040888963407);
        let p = ((seed >> 33) % producers as u64) as usize;
        if next[p] == per {
            continue;
        }
        let shared = Arc::clone(&log);
        let k = next[p];
        shared.lock().unwrap().append(TerminalEvent::output(k, format!("{}:{}", p, k)));
        next[p] += 1;
        total += 1;
    }
    let snap = log.lock().unwrap().snapshot();
    assert_eq!(snap.len() as u128, producers * per);
    let mut seen: Vec<String> = snap.iter().map(|e| e.payload.clone()).collect();
    seen.sort();
    seen.dedup();
    assert_eq!(seen.len() as u128, producers * per);
    for p in 0..producers {
        let mine: Vec<u128> = snap
            .iter()
            .filter(|e| e.payload.starts_with(&format!("{}:", p)))
            .map(|e| e.timestamp)
            .collect();
        assert_eq!(mine, (0..per).collect::<Vec<u128>>());
    }
}

#[test]
fn checkpoint_skips_empty_log() {
    let log = EventLog::new();
    assert_eq!(checkpoint(&log), None);
    assert_eq!(final_snapshot(&log), "[]");
}

#[test]
fn checkpoint_writes_current_log() {
    let mut log = EventLog::new();
    log.append(TerminalEvent::input(5, "q".to_string()));
    let expected = "[{\"timestamp\":5,\"input\":\"q\",\"output\":null}]".to_string();
    assert_eq!(checkpoint(&log), Some(expected.clone()));
    assert_eq!(final_snapshot(&log), expected);
}
