use hadron::codec::{emit_document, parse_document};
use hadron::log::{
    LogData, LogKind, StructuredLogMessage, StructuredLogOutput, StructuredPanicInfo, Timestamp,
};
use hadron::unique::UniqueId;

fn record(level: LogKind, topic: &str, text: &str) -> StructuredLogMessage {
    StructuredLogMessage {
        time: Timestamp { secs: 12, nanos: 34 },
        level,
        topic: topic.to_string(),
        message: text.to_string(),
    }
}

fn entry(index: u64, level: LogKind, topic: &str, text: &str) -> StructuredLogOutput {
    StructuredLogOutput { index, message: record(level, topic, text) }
}

#[test]
fn empty_document_round_trip() {
    let doc = LogData {
        id: UniqueId::get(),
        timestamp: Timestamp { secs: 1_700_000_000, nanos: 5 },
        messages: Vec::new(),
    };
    let text = emit_document(&doc);
    let back = parse_document(text.as_str()).expect("an emitted document must parse");
    assert_eq!(back, doc);
}

#[test]
fn document_round_trip_all_kinds() {
    let panic_info = StructuredPanicInfo::new(
        42,
        String::from("src/graphics.rs"),
        String::from("boom \"quoted\" and back\\slash"),
        String::from("frame one\nframe two\ttabbed\r\nframe three"),
    );
    let doc = LogData {
        id: UniqueId::get(),
        timestamp: Timestamp { secs: 7, nanos: 999_999_999 },
        messages: vec![
            entry(0, LogKind::Information, "general", "boot"),
            entry(1, LogKind::Warning, "töpic ☃", "unicode text: ünïcödé"),
            entry(2, LogKind::Error, "net", "control char \u{1} embedded"),
            entry(3, LogKind::State(String::from("{\"hp\":17}")), "world", "snapshot"),
            entry(4, LogKind::Panic(panic_info), "panic", "boom"),
        ],
    };
    let text = emit_document(&doc);
    let back = parse_document(text.as_str()).expect("an emitted document must parse");
    assert_eq!(back, doc);
}

#[test]
fn indexed_id_document_round_trip() {
    let doc = LogData {
        id: UniqueId::get_with_index(3),
        timestamp: Timestamp { secs: 0, nanos: 0 },
        messages: vec![entry(0, LogKind::Information, "a", "b")],
    };
    let text = emit_document(&doc);
    let back = parse_document(text.as_str()).expect("an emitted document must parse");
    assert_eq!(back, doc);
}

#[test]
fn document_exact_text() {
    let id = UniqueId::get();
    let doc = LogData {
        id,
        timestamp: Timestamp { secs: 3, nanos: 20 },
        messages: vec![entry(0, LogKind::Information, "general", "boot")],
    };
    let expected = format!(
        "{{\"id\":{},\"timestamp\":{{\"secs\":3,\"nanos\":20}},\"messages\":[{{\"index\":0,\"message\":{{\"time\":{{\"secs\":12,\"nanos\":34}},\"level\":\"Information\",\"topic\":\"general\",\"message\":\"boot\"}}}}]}}",
        id.magnitude(),
    );
    assert_eq!(emit_document(&doc), expected);
}

#[test]
fn escapes_have_exact_text() {
    let doc = LogData {
        id: UniqueId::get(),
        timestamp: Timestamp { secs: 0, nanos: 0 },
        messages: vec![entry(0, LogKind::Information, "t", "a\"b\\c\nd\re\tf\u{1}g")],
    };
    let expected = format!(
        "{{\"id\":{},\"timestamp\":{{\"secs\":0,\"nanos\":0}},\"messages\":[{{\"index\":0,\"message\":{{\"time\":{{\"secs\":12,\"nanos\":34}},\"level\":\"Information\",\"topic\":\"t\",\"message\":\"a\\\"b\\\\c\\nd\\re\\tf\\u0001g\"}}}}]}}",
        doc.id.magnitude(),
    );
    assert_eq!(emit_document(&doc), expected);
}

#[test]
fn negative_id_has_minus_sign() {
    let id = UniqueId::get_with_index(9);
    let doc = LogData { id, timestamp: Timestamp { secs: 0, nanos: 0 }, messages: Vec::new() };
    let expected = format!(
        "{{\"id\":-{},\"timestamp\":{{\"secs\":0,\"nanos\":0}},\"messages\":[]}}",
        id.magnitude(),
    );
    assert_eq!(emit_document(&doc), expected);
}

#[test]
fn parse_rejects_truncated_text() {
    let doc = LogData {
        id: UniqueId::get(),
        timestamp: Timestamp { secs: 1, nanos: 2 },
        messages: vec![entry(0, LogKind::Error, "x", "y")],
    };
    let mut text = emit_document(&doc);
    text.pop();
    assert!(parse_document(text.as_str()).is_none());
}

#[test]
fn parse_rejects_trailing_garbage() {
    let doc = LogData {
        id: UniqueId::get(),
        timestamp: Timestamp { secs: 1, nanos: 2 },
        messages: Vec::new(),
    };
    let mut text = emit_document(&doc);
    text.push(' ');
    assert!(parse_document(text.as_str()).is_none());
}
