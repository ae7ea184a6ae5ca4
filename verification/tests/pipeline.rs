use std::sync::mpsc;

use hadron::codec::parse_document;
use hadron::consumer::{log_receiver, LogReceiver, FLUSH_BATCH};
use hadron::log::{
    LogError, LogEvent, LogKind, Logger, StructuredLogMessage, StructuredPanicInfo, Timestamp,
};
use hadron::unique::UniqueId;

fn fresh_consumer() -> LogReceiver {
    LogReceiver::new(UniqueId::get(), Timestamp { secs: 0, nanos: 0 })
}

fn info_message(topic: &str, text: &str) -> StructuredLogMessage {
    StructuredLogMessage {
        time: Timestamp { secs: 5, nanos: 0 },
        level: LogKind::Information,
        topic: topic.to_string(),
        message: text.to_string(),
    }
}

#[test]
fn scenario_boot_then_flush() {
    let mut consumer = fresh_consumer();
    let none = log_receiver(&mut consumer, LogEvent::Message(info_message("general", "boot")));
    assert!(none.is_none());
    let text = log_receiver(&mut consumer, LogEvent::Shutdown)
        .expect("the close signal forces a flush");
    let doc = parse_document(text.as_str()).expect("a flushed document must parse");
    assert_eq!(doc.messages.len(), 1);
    assert_eq!(doc.messages[0].index, 0);
    assert!(matches!(doc.messages[0].message.level, LogKind::Information));
    assert_eq!(doc.messages[0].message.message.as_str(), "boot");
}

#[test]
fn scenario_interleaved_producers() {
    // Two handles feed the same channel; their records arrive interleaved.
    // Cross-handle interleaving carries no guarantee, but each handle's own
    // order survives, and the consumer numbers everything densely.
    let (tx, rx) = mpsc::channel::<LogEvent>();
    let first = Logger::new(tx, String::from("first"));
    let second = first.with_topic(String::from("second"));
    for k in 0..50 {
        first.info(format!("first-{}", k)).expect("the consumer end is alive");
        second.info(format!("second-{}", k)).expect("the consumer end is alive");
    }
    first.shutdown().expect("the consumer end is alive");
    drop(first);
    drop(second);

    let mut consumer = fresh_consumer();
    let mut last_flush: Option<String> = None;
    for event in rx.iter() {
        if let Some(text) = log_receiver(&mut consumer, event) {
            last_flush = Some(text);
        }
    }
    let text = last_flush.expect("the close signal forces a flush");
    let doc = parse_document(text.as_str()).expect("a flushed document must parse");
    assert_eq!(doc.messages.len(), 100);
    let mut first_seen = Vec::new();
    let mut second_seen = Vec::new();
    for (k, entry) in doc.messages.iter().enumerate() {
        assert_eq!(entry.index, k as u64);
        match entry.message.topic.as_str() {
            "first" => first_seen.push(entry.message.message.clone()),
            "second" => second_seen.push(entry.message.message.clone()),
            other => panic!("unexpected topic {}", other),
        }
    }
    assert_eq!(first_seen.len(), 50);
    assert_eq!(second_seen.len(), 50);
    for k in 0..50 {
        assert_eq!(first_seen[k], format!("first-{}", k));
        assert_eq!(second_seen[k], format!("second-{}", k));
    }
}

#[test]
fn scenario_panic_drains_and_stops() {
    let mut consumer = fresh_consumer();
    for k in 0..3 {
        let flush = log_receiver(
            &mut consumer,
            LogEvent::Message(info_message("general", format!("step {}", k).as_str())),
        );
        assert!(flush.is_none());
    }
    let panic_message = StructuredLogMessage {
        time: Timestamp { secs: 9, nanos: 1 },
        level: LogKind::Panic(StructuredPanicInfo::new(
            77,
            String::from("src/app.rs"),
            String::from("index out of bounds"),
            String::from("0: frame\n1: frame"),
        )),
        topic: String::from("panic"),
        message: String::from("index out of bounds"),
    };
    let text = log_receiver(&mut consumer, LogEvent::Message(panic_message))
        .expect("a panic record forces an immediate flush");
    let doc = parse_document(text.as_str()).expect("a flushed document must parse");
    assert_eq!(doc.messages.len(), 4);
    let last = &doc.messages[3];
    assert_eq!(last.index, 3);
    match &last.message.level {
        LogKind::Panic(p) => {
            assert_eq!(p.line, 77);
            assert!(!p.file.is_empty());
            assert!(!p.backtrace.is_empty());
        },
        other => panic!("expected a panic record, found {:?}", other),
    }
}

#[test]
fn scenario_fresh_document_per_startup() {
    let one = fresh_consumer();
    let two = fresh_consumer();
    let doc_one = parse_document(one.render_document().as_str()).expect("must parse");
    let doc_two = parse_document(two.render_document().as_str()).expect("must parse");
    assert!(doc_one.messages.is_empty());
    assert!(doc_two.messages.is_empty());
    assert!(doc_one.id != doc_two.id);
}

#[test]
fn flush_happens_exactly_at_the_batch_size() {
    let mut consumer = fresh_consumer();
    for k in 0..FLUSH_BATCH - 1 {
        let flush = log_receiver(
            &mut consumer,
            LogEvent::Message(info_message("general", format!("m{}", k).as_str())),
        );
        assert!(flush.is_none());
    }
    let text = log_receiver(&mut consumer, LogEvent::Message(info_message("general", "last")))
        .expect("the batch size forces a flush");
    let doc = parse_document(text.as_str()).expect("a flushed document must parse");
    assert_eq!(doc.messages.len(), FLUSH_BATCH);
    for (k, entry) in doc.messages.iter().enumerate() {
        assert_eq!(entry.index, k as u64);
    }
}

#[test]
fn closed_channel_reports_the_error() {
    let (tx, rx) = mpsc::channel::<LogEvent>();
    let logger = Logger::new(tx, String::from("general"));
    drop(rx);
    assert_eq!(logger.info(String::from("lost")), Err(LogError::ChannelClosed));
    assert_eq!(logger.warn(String::from("lost")), Err(LogError::ChannelClosed));
    assert_eq!(logger.error(String::from("lost")), Err(LogError::ChannelClosed));
    assert_eq!(
        logger.state(String::from("label"), String::from("{}")),
        Err(LogError::ChannelClosed)
    );
    assert_eq!(logger.shutdown(), Err(LogError::ChannelClosed));
}

#[test]
fn logger_sends_composed_records() {
    let (tx, rx) = mpsc::channel::<LogEvent>();
    let logger = Logger::new(tx, String::from("net"));
    logger.info(String::from("hello")).expect("the consumer end is alive");
    logger.warn(String::from("careful")).expect("the consumer end is alive");
    logger.error(String::from("broken")).expect("the consumer end is alive");
    logger.state(String::from("label"), String::from("{\"x\":1}")).expect(
        "the consumer end is alive",
    );

    let expectations: [(&str, &str); 4] =
        [("Information", "hello"), ("Warning", "careful"), ("Error", "broken"), ("State", "label")];
    for (kind_name, text) in expectations.iter() {
        match rx.recv().expect("a record was sent") {
            LogEvent::Message(m) => {
                assert_eq!(m.topic.as_str(), "net");
                assert_eq!(m.message.as_str(), *text);
                assert!(m.time.nanos < 1_000_000_000);
                match (&m.level, *kind_name) {
                    (LogKind::Information, "Information") => {},
                    (LogKind::Warning, "Warning") => {},
                    (LogKind::Error, "Error") => {},
                    (LogKind::State(snapshot), "State") => {
                        assert_eq!(snapshot.as_str(), "{\"x\":1}");
                    },
                    (found, expected) => panic!("expected {}, found {:?}", expected, found),
                }
            },
            LogEvent::Shutdown => panic!("no close signal was sent"),
        }
    }
}

#[test]
fn clean_shutdown_without_a_panic() {
    let (tx, rx) = mpsc::channel::<LogEvent>();
    let logger = Logger::new(tx, String::from("general"));
    logger.info(String::from("only entry")).expect("the consumer end is alive");
    logger.shutdown().expect("the consumer end is alive");
    drop(logger);

    let mut consumer = fresh_consumer();
    let mut last_flush: Option<String> = None;
    for event in rx.iter() {
        if let Some(text) = log_receiver(&mut consumer, event) {
            last_flush = Some(text);
        }
    }
    let text = last_flush.expect("the close signal forces a flush");
    let doc = parse_document(text.as_str()).expect("a flushed document must parse");
    assert_eq!(doc.messages.len(), 1);
    assert_eq!(doc.messages[0].message.message.as_str(), "only entry");
}

#[test]
fn panic_record_message_is_kept() {
    let info = StructuredPanicInfo::new(
        5,
        String::from("src/lib.rs"),
        String::from("payload text"),
        String::from("trace"),
    );
    assert_eq!(info.message().as_str(), "payload text");
}
