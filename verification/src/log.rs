//! Structured log records and the cloneable logger handle.
//!
//! A [`StructuredLogMessage`] is an immutable record produced by any call
//! site; ownership passes into the pipeline's channel, and the background
//! consumer is its sole reader thereafter. A [`Logger`] is a cheap,
//! cloneable front-end bound to a topic name that owns a send-endpoint into
//! that channel.

use vstd::prelude::*;

use crate::unique::UniqueId;

verus! {

/// A wall-clock timestamp: a duration since the Unix epoch.
#[derive(Clone, Copy, Debug, PartialEq, Eq, Structural)]
pub struct Timestamp {
    pub secs: u64,
    pub nanos: u32,
}

impl Timestamp {
    /// The sub-second part never reaches one billion nanoseconds.
    pub open spec fn wf(self) -> bool {
        self.nanos < 1_000_000_000
    }
}

/// Crash context captured from an active panic: source location, the
/// best-effort string payload, and the full captured stack trace text.
#[derive(Debug, PartialEq, Eq)]
pub struct StructuredPanicInfo {
    pub line: u32,
    pub file: String,
    pub message: String,
    pub backtrace: String,
}

/// The mathematical value of a [`StructuredPanicInfo`].
pub struct PanicView {
    pub line: u32,
    pub file: Seq<char>,
    pub message: Seq<char>,
    pub backtrace: Seq<char>,
}

impl View for StructuredPanicInfo {
    type V = PanicView;

    open spec fn view(&self) -> PanicView {
        PanicView {
            line: self.line,
            file: self.file@,
            message: self.message@,
            backtrace: self.backtrace@,
        }
    }
}

impl StructuredPanicInfo {
    /// A panic record built from the extracted crash context. Constructed
    /// exactly once per panic by the interceptor around the pipeline.
    pub fn new(line: u32, file: String, message: String, backtrace: String) -> (r:
        StructuredPanicInfo)
        ensures
            r@.line == line,
            r@.file == file@,
            r@.message == message@,
            r@.backtrace == backtrace@,
    {
        StructuredPanicInfo { line, file, message, backtrace }
    }

    /// The best-effort panic payload text.
    pub fn message(&self) -> (r: String)
        ensures
            r@ == self@.message,
    {
        self.message.clone()
    }
}

/// The severity or kind of a log record.
#[derive(Debug, PartialEq, Eq)]
pub enum LogKind {
    Error,
    Warning,
    Information,
    Panic(StructuredPanicInfo),
    State(String),
}

/// The mathematical value of a [`LogKind`].
pub enum KindView {
    Error,
    Warning,
    Information,
    Panic(PanicView),
    State(Seq<char>),
}

impl View for LogKind {
    type V = KindView;

    open spec fn view(&self) -> KindView {
        match self {
            LogKind::Error => KindView::Error,
            LogKind::Warning => KindView::Warning,
            LogKind::Information => KindView::Information,
            LogKind::Panic(p) => KindView::Panic(p@),
            LogKind::State(s) => KindView::State(s@),
        }
    }
}

/// An immutable log record: timestamp, kind, topic and text.
#[derive(Debug, PartialEq, Eq)]
pub struct StructuredLogMessage {
    pub time: Timestamp,
    pub level: LogKind,
    pub topic: String,
    pub message: String,
}

/// The mathematical value of a [`StructuredLogMessage`].
pub struct MessageView {
    pub time: Timestamp,
    pub level: KindView,
    pub topic: Seq<char>,
    pub message: Seq<char>,
}

impl View for StructuredLogMessage {
    type V = MessageView;

    open spec fn view(&self) -> MessageView {
        MessageView {
            time: self.time,
            level: self.level@,
            topic: self.topic@,
            message: self.message@,
        }
    }
}

/// One persisted entry: the consumer-assigned sequence index and the record.
#[derive(Debug, PartialEq, Eq)]
pub struct StructuredLogOutput {
    pub index: u64,
    pub message: StructuredLogMessage,
}

/// The mathematical value of a [`StructuredLogOutput`].
pub struct OutputView {
    pub index: u64,
    pub message: MessageView,
}

impl View for StructuredLogOutput {
    type V = OutputView;

    open spec fn view(&self) -> OutputView {
        OutputView { index: self.index, message: self.message@ }
    }
}

/// The element-wise view of a sequence of persisted entries.
pub open spec fn outputs_view(s: Seq<StructuredLogOutput>) -> Seq<OutputView> {
    Seq::new(s.len(), |i: int| s[i]@)
}

/// The view of a concatenation is the concatenation of the views.
pub proof fn lemma_outputs_view_concat(a: Seq<StructuredLogOutput>, b: Seq<StructuredLogOutput>)
    ensures
        outputs_view(a + b) =~= outputs_view(a) + outputs_view(b),
{
}

/// The view of a push appends the view of the pushed entry.
pub proof fn lemma_outputs_view_push(a: Seq<StructuredLogOutput>, o: StructuredLogOutput)
    ensures
        outputs_view(a.push(o)) =~= outputs_view(a).push(o@),
{
}

/// The durable persistence document: a session identifier, a creation
/// timestamp, and the insertion-ordered list of sequence-indexed records.
#[derive(Debug, PartialEq, Eq)]
pub struct LogData {
    pub id: UniqueId,
    pub timestamp: Timestamp,
    pub messages: Vec<StructuredLogOutput>,
}

/// The mathematical value of a [`LogData`].
pub struct DocView {
    pub id: UniqueId,
    pub timestamp: Timestamp,
    pub messages: Seq<OutputView>,
}

impl View for LogData {
    type V = DocView;

    open spec fn view(&self) -> DocView {
        DocView { id: self.id, timestamp: self.timestamp, messages: outputs_view(self.messages@) }
    }
}

/// What travels through the pipeline's channel: a record, or the explicit
/// close signal that lets the consumer stop without a panic.
pub enum LogEvent {
    Message(StructuredLogMessage),
    Shutdown,
}

/// The mathematical value of a [`LogEvent`].
pub enum EventView {
    Message(MessageView),
    Shutdown,
}

impl View for LogEvent {
    type V = EventView;

    open spec fn view(&self) -> EventView {
        match self {
            LogEvent::Message(m) => EventView::Message(m@),
            LogEvent::Shutdown => EventView::Shutdown,
        }
    }
}

/// Failure to hand a record to the pipeline: the consumer is gone. This is
/// unrecoverable by design — the process must not continue in a state where
/// logging silently stops.
#[derive(Clone, Copy, Debug, PartialEq, Eq, Structural)]
pub enum LogError {
    ChannelClosed,
}

#[verifier::external_type_specification]
#[verifier::external_body]
#[verifier::reject_recursive_types(T)]
pub struct ExSender<T>(std::sync::mpsc::Sender<T>);

/// Relies on `std::sync::mpsc::Sender::send`: ownership of the event passes
/// into the channel, and the result is `true` exactly when the receiving end
/// was still alive to take it. Nothing more can be promised — acceptance
/// depends on the receiver's state, not on the arguments.
#[verifier::external_body]
fn send_event(tx: &std::sync::mpsc::Sender<LogEvent>, event: LogEvent) -> (accepted: bool) {
    tx.send(event).is_ok()
}

/// Relies on `std::sync::mpsc::Sender::clone`: the clone is another send
/// endpoint of the same channel.
#[verifier::external_body]
fn clone_sender(tx: &std::sync::mpsc::Sender<LogEvent>) -> (r: std::sync::mpsc::Sender<LogEvent>) {
    tx.clone()
}

/// Relies on `std::time::SystemTime::now` and `duration_since`: the
/// wall-clock duration since the Unix epoch, whose documented sub-second
/// part is below one billion nanoseconds. A clock reading from before the
/// epoch is mapped to the zero duration.
#[verifier::external_body]
fn time_stamp_now() -> (t: Timestamp)
    ensures
        t.wf(),
{
    let d = std::time::SystemTime::now().duration_since(std::time::UNIX_EPOCH).unwrap_or(
        std::time::Duration::ZERO,
    );
    Timestamp { secs: d.as_secs(), nanos: d.subsec_nanos() }
}

/// A cheap, cloneable logging front-end bound to a topic name. It owns a
/// send-endpoint into the pipeline; no operation blocks the caller beyond
/// the cost of enqueueing.
pub struct Logger {
    tx: std::sync::mpsc::Sender<LogEvent>,
    topic: String,
}

impl Logger {
    /// The topic name every record of this handle carries.
    pub closed spec fn topic_spec(self) -> Seq<char> {
        self.topic@
    }

    /// A handle bound to `topic`, feeding the channel behind `tx`.
    pub fn new(tx: std::sync::mpsc::Sender<LogEvent>, topic: String) -> (r: Logger)
        ensures
            r.topic_spec() == topic@,
    {
        Logger { tx, topic }
    }

    /// A clone of this handle bound to another topic.
    pub fn with_topic(&self, topic: String) -> (r: Logger)
        ensures
            r.topic_spec() == topic@,
    {
        Logger { tx: clone_sender(&self.tx), topic }
    }

    /// A clone of this handle, feeding the same channel under the same topic.
    pub fn clone_handle(&self) -> (r: Logger)
        ensures
            r.topic_spec() == self.topic_spec(),
    {
        Logger { tx: clone_sender(&self.tx), topic: self.topic.clone() }
    }

    /// A record of the given kind under this handle's topic, stamped with
    /// the current wall-clock time.
    pub fn compose(&self, level: LogKind, text: String) -> (m: StructuredLogMessage)
        ensures
            m@.level == level@,
            m@.topic == self.topic_spec(),
            m@.message == text@,
            m.time.wf(),
    {
        StructuredLogMessage {
            time: time_stamp_now(),
            level,
            topic: self.topic.clone(),
            message: text,
        }
    }

    /// Composes a record and enqueues it; `Err` means the consumer is gone.
    fn submit(&self, level: LogKind, text: String) -> (r: Result<(), LogError>)
        ensures
            r matches Err(e) ==> e == LogError::ChannelClosed,
    {
        let m = self.compose(level, text);
        if send_event(&self.tx, LogEvent::Message(m)) {
            Ok(())
        } else {
            Err(LogError::ChannelClosed)
        }
    }

    /// Enqueues an informational record with this handle's topic and the
    /// given text. `Err(ChannelClosed)` is the only failure: the consumer
    /// is gone and logging cannot continue.
    pub fn info(&self, info: String) -> (r: Result<(), LogError>)
        ensures
            r matches Err(e) ==> e == LogError::ChannelClosed,
    {
        self.submit(LogKind::Information, info)
    }

    /// Enqueues a warning record with this handle's topic and the given text.
    pub fn warn(&self, info: String) -> (r: Result<(), LogError>)
        ensures
            r matches Err(e) ==> e == LogError::ChannelClosed,
    {
        self.submit(LogKind::Warning, info)
    }

    /// Enqueues an error record with this handle's topic and the given text.
    pub fn error(&self, info: String) -> (r: Result<(), LogError>)
        ensures
            r matches Err(e) ==> e == LogError::ChannelClosed,
    {
        self.submit(LogKind::Error, info)
    }

    /// Enqueues a state-snapshot record: `snapshot` is the serialized
    /// textual form of the observed value, `label` the human-readable text.
    pub fn state(&self, label: String, snapshot: String) -> (r: Result<(), LogError>)
        ensures
            r matches Err(e) ==> e == LogError::ChannelClosed,
    {
        self.submit(LogKind::State(snapshot), label)
    }

    /// Enqueues the explicit close signal: the consumer flushes everything
    /// buffered and stops. Meant for the owner of the pipeline, not for
    /// ordinary call sites.
    pub fn shutdown(&self) -> (r: Result<(), LogError>)
        ensures
            r matches Err(e) ==> e == LogError::ChannelClosed,
    {
        if send_event(&self.tx, LogEvent::Shutdown) {
            Ok(())
        } else {
            Err(LogError::ChannelClosed)
        }
    }
}

} // verus!
