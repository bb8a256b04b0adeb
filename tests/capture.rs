use demoterm::capture::CaptureSource;
use demoterm::event::{EventLog, Source};

#[test]
fn capture_appends_one_tagged_event_per_read() {
    let mut log = EventLog::new();
    let mut out = CaptureSource::new(Source::Output);
    assert!(out.capture(&mut log, 12, b"hello"));
    let snap = log.snapshot();
    assert_eq!(snap.len(), 1);
    assert_eq!(snap[0].source, Source::Output);
    assert_eq!(snap[0].timestamp, 12);
    assert_eq!(snap[0].payload, "hello");
}

#[test]
fn capture_decodes_invalid_bytes_lossily() {
    let mut log = EventLog::new();
    let mut inp = CaptureSource::new(Source::Input);
    assert!(inp.capture(&mut log, 1, &[b'a', 0xff, b'b', 0xe2, 0x82]));
    let snap = log.snapshot();
    assert_eq!(snap[0].payload, "a\u{fffd}b\u{fffd}");
    assert_eq!(snap[0].source, Source::Input);
}

#[test]
fn capture_empty_read_ends_the_source() {
    let mut log = EventLog::new();
    let mut out = CaptureSource::new(Source::Output);
    assert!(!out.capture(&mut log, 5, &[]));
    assert!(log.is_empty());
    assert_eq!(out.last, 0);
}

#[test]
fn capture_timestamps_never_decrease() {
    let mut log = EventLog::new();
    let mut out = CaptureSource::new(Source::Output);
    let mut inp = CaptureSource::new(Source::Input);
    assert!(out.capture(&mut log, 10, b"a"));
    assert!(inp.capture(&mut log, 3, b"b"));
    assert!(out.capture(&mut log, 7, b"c"));
    assert!(out.capture(&mut log, 20, b"d"));
    let snap = log.snapshot();
    let outs: Vec<u128> = snap.iter().filter(|e| e.source == Source::Output).map(|e| e.timestamp).collect();
    assert_eq!(outs, vec![10, 10, 20]);
    assert_eq!(snap[1].timestamp, 3);
}

#[test]
fn record_takes_decoded_text() {
    let mut log = EventLog::new();
    let mut out = CaptureSource::new(Source::Output);
    out.record(&mut log, 4, "x\u{fffd}".to_string());
    out.record(&mut log, 2, "y".to_string());
    let snap = log.snapshot();
    assert_eq!(snap[0].payload, "x\u{fffd}");
    assert_eq!(snap[1].timestamp, 4);
    assert_eq!(out.last, 4);
}
