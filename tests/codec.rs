use demoterm::codec::{decode_log, encode_log};
use demoterm::error::ErrorKind;
use demoterm::event::{Source, TerminalEvent};

fn sample() -> Vec<TerminalEvent> {
    vec![
        TerminalEvent::input(0, "echo hi\n".to_string()),
        TerminalEvent::output(50, "hi\n".to_string()),
    ]
}

fn same(a: &[TerminalEvent], b: &[TerminalEvent]) -> bool {
    a.len() == b.len()
        && a.iter().zip(b.iter()).all(|(x, y)| {
            x.timestamp == y.timestamp && x.source == y.source && x.payload == y.payload
        })
}

#[test]
fn encode_writes_the_persisted_array() {
    let text = encode_log(&sample());
    assert_eq!(
        text,
        "[{\"timestamp\":0,\"input\":\"echo hi\\n\",\"output\":null},{\"timestamp\":50,\"input\":null,\"output\":\"hi\\n\"}]"
    );
}

#[test]
fn encode_empty_log() {
    assert_eq!(encode_log(&Vec::new()), "[]");
}

#[test]
fn encode_escapes_quotes_backslashes_and_control_characters() {
    let events = vec![TerminalEvent::output(7, "a\"b\\c\t\r\u{8}\u{c}\u{1b}[0m\u{1}".to_string())];
    assert_eq!(
        encode_log(&events),
        "[{\"timestamp\":7,\"input\":null,\"output\":\"a\\\"b\\\\c\\t\\r\\b\\f\\u001b[0m\\u0001\"}]"
    );
}

#[test]
fn encode_largest_timestamp() {
    let events = vec![TerminalEvent::input(u128::MAX, String::new())];
    assert_eq!(
        encode_log(&events),
        "[{\"timestamp\":340282366920938463463374607431768211455,\"input\":\"\",\"output\":null}]"
    );
}

#[test]
fn decode_reads_back_what_was_written() {
    let events = vec![
        TerminalEvent::input(3, "ls -l\r".to_string()),
        TerminalEvent::output(9, "caf\u{e9} \u{fffd} \u{1f600} \u{1b}]0;t\u{7}\u{7f}".to_string()),
        TerminalEvent::output(u128::MAX, String::new()),
    ];
    let back = decode_log(&encode_log(&events)).unwrap();
    assert!(same(&back, &events));
}

#[test]
fn decode_sample_text() {
    let text = "[{\"timestamp\":0,\"input\":\"echo hi\\n\",\"output\":null},{\"timestamp\":50,\"input\":null,\"output\":\"hi\\n\"}]";
    let back = decode_log(text).unwrap();
    assert!(same(&back, &sample()));
    assert_eq!(back[0].source, Source::Input);
    assert_eq!(back[1].source, Source::Output);
}

#[test]
fn decode_empty_array() {
    assert_eq!(decode_log("[]").unwrap().len(), 0);
}

#[test]
fn decode_rejects_malformed_text() {
    let bad = [
        "",
        "[",
        "[] ",
        "{}",
        "[{\"timestamp\":01,\"input\":\"x\",\"output\":null}]",
        "[{\"timestamp\":1,\"input\":null,\"output\":null}]",
        "[{\"timestamp\":1,\"input\":\"a\",\"output\":\"b\"}]",
        "[{\"timestamp\":1,\"input\":\"a\",\"output\":null},]",
        "[{\"timestamp\":1, \"input\":\"a\",\"output\":null}]",
        "[{\"timestamp\":340282366920938463463374607431768211456,\"input\":\"a\",\"output\":null}]",
        "[{\"timestamp\":1,\"input\":\"\\u000a\",\"output\":null}]",
        "[{\"timestamp\":1,\"input\":\"a",
    ];
    for t in bad.iter() {
        assert_eq!(decode_log(t).err(), Some(ErrorKind::DecodeFailure), "{}", t);
    }
}

#[test]
fn string_escaping_matches_serde_json() {
    let payloads = [
        "plain",
        "quote \" backslash \\ slash /",
        "\n\r\t\u{8}\u{c}\u{0}\u{1f}\u{1b}\u{7f}",
        "caf\u{e9} \u{2028} \u{1f600} \u{fffd}",
    ];
    for p in payloads.iter() {
        let text = encode_log(&vec![TerminalEvent::input(1, p.to_string())]);
        let expected = format!(
            "[{{\"timestamp\":1,\"input\":{},\"output\":null}}]",
            serde_json::to_string(p).unwrap()
        );
        assert_eq!(text, expected);
    }
}

#[test]
fn encoded_text_is_json_that_serde_json_reads() {
    let events = vec![
        TerminalEvent::input(0, "a\u{1}\"".to_string()),
        TerminalEvent::output(99, "\u{fffd}\n".to_string()),
    ];
    let value: serde_json::Value = serde_json::from_str(&encode_log(&events)).unwrap();
    let items = value.as_array().unwrap();
    assert_eq!(items.len(), 2);
    assert_eq!(items[0].get("input").unwrap().as_str(), Some("a\u{1}\""));
    assert!(items[0].get("output").unwrap().is_null());
    assert_eq!(items[1].get("timestamp").unwrap().as_u64(), Some(99));
    assert_eq!(items[1].get("output").unwrap().as_str(), Some("\u{fffd}\n"));
}
