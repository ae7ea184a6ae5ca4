//! The consumer / persistence engine.
//!
//! A single background worker owns the persistence document. It takes one
//! event at a time from the pipeline's channel, assigns the next sequence
//! index, buffers the record, and decides when the document must be
//! durably rewritten. The surrounding loop performs the waiting and the
//! file writes; every decision — indexing, batching, draining, stopping —
//! is made here.
//!
//! Batching policy: the buffer is flushed as soon as it holds
//! [`FLUSH_BATCH`] records, and always when a panic record arrives or the
//! explicit close signal is taken. The consumer stops after the flush that
//! carried a panic record or the close signal; the stopped state is
//! absorbing.

use vstd::prelude::*;

use crate::codec;
use crate::log::{
    lemma_outputs_view_concat, lemma_outputs_view_push, outputs_view, DocView, EventView, LogData,
    LogEvent, LogKind, OutputView, StructuredLogOutput, Timestamp,
};
use crate::unique::UniqueId;

verus! {

/// How many buffered records force a durable flush even without a panic or
/// a close signal.
pub const FLUSH_BATCH: usize = 8;

/// The consumer's state: the document as last persisted, the records
/// buffered since, the running sequence counter, and whether the consumer
/// has stopped.
///
/// The consumer is the sole writer of the document, so the `data` field is
/// an exact mirror of what the last flush put into storage.
pub struct LogReceiver {
    data: LogData,
    buffer: Vec<StructuredLogOutput>,
    message_count: u64,
    stopping: bool,
}

impl LogReceiver {
    /// The document as last persisted.
    pub closed spec fn doc(self) -> DocView {
        self.data@
    }

    /// The records taken since the last flush, in arrival order.
    pub closed spec fn pending(self) -> Seq<OutputView> {
        outputs_view(self.buffer@)
    }

    /// Whether the consumer has stopped: set by a panic record or the close
    /// signal, and never cleared.
    pub closed spec fn stopped(self) -> bool {
        self.stopping
    }

    /// The running sequence counter.
    pub closed spec fn count(self) -> u64 {
        self.message_count
    }

    /// The entries already written to storage.
    pub open spec fn persisted(self) -> Seq<OutputView> {
        self.doc().messages
    }

    /// Every entry taken so far, persisted first, then pending.
    pub open spec fn entries(self) -> Seq<OutputView> {
        self.persisted() + self.pending()
    }

    /// Well-formedness: the counter equals the number of entries, and entry
    /// `i` carries sequence index `i` — indices start at zero and increase
    /// by exactly one per record, with no gaps.
    pub open spec fn wf(self) -> bool {
        &&& self.count() == self.entries().len()
        &&& forall|i: int|
            0 <= i < self.entries().len() ==> (#[trigger] self.entries()[i]).index == i
    }

    /// A fresh consumer around an empty document tagged with `id` and
    /// `timestamp`.
    pub fn new(id: UniqueId, timestamp: Timestamp) -> (s: LogReceiver)
        ensures
            s.wf(),
            !s.stopped(),
            s.entries() == Seq::<OutputView>::empty(),
            s.persisted() == Seq::<OutputView>::empty(),
            s.doc().id == id,
            s.doc().timestamp == timestamp,
    {
        let s = LogReceiver {
            data: LogData { id, timestamp, messages: Vec::new() },
            buffer: Vec::new(),
            message_count: 0,
            stopping: false,
        };
        proof {
            assert(s.persisted() =~= Seq::<OutputView>::empty());
            assert(s.pending() =~= Seq::<OutputView>::empty());
            assert(s.entries() =~= Seq::<OutputView>::empty());
        }
        s
    }

    /// Whether the consumer has stopped and the surrounding loop must exit.
    pub fn is_stopped(&self) -> (r: bool)
        ensures
            r == self.stopped(),
    {
        self.stopping
    }

    /// How many records have been taken so far.
    pub fn taken(&self) -> (r: u64)
        ensures
            r == self.count(),
    {
        self.message_count
    }

    /// The canonical text of the document as last persisted. The loop
    /// writes this once at startup, so that a fresh empty document exists
    /// on disk before any record arrives.
    pub fn render_document(&self) -> (out: String)
        ensures
            out@ == codec::spec_emit_doc(self.doc()),
    {
        codec::emit_document(&self.data)
    }
}

/// Whether one more event, leaving `pending` records buffered and the
/// stopping flag as given, forces a durable flush.
pub open spec fn must_flush(stopping: bool, pending: int) -> bool {
    stopping || pending >= FLUSH_BATCH
}

/// One step of the consumer: takes one event from the channel, and returns
/// the full document text to be written to storage when the batching policy
/// calls for a flush.
///
/// A record is appended to the entries with the next sequence index; the
/// close signal appends nothing. The consumer stops exactly when the event
/// was a panic record or the close signal, and a stopped consumer has
/// flushed everything: its persisted entries are all of its entries.
pub fn log_receiver(state: &mut LogReceiver, event: LogEvent) -> (flush: Option<String>)
    requires
        old(state).wf(),
        !old(state).stopped(),
        old(state).entries().len() < u64::MAX,
    ensures
        final(state).wf(),
        final(state).doc().id == old(state).doc().id,
        final(state).doc().timestamp == old(state).doc().timestamp,
        match event@ {
            EventView::Message(m) => final(state).entries() == old(state).entries().push(
                OutputView { index: old(state).entries().len() as u64, message: m },
            ),
            EventView::Shutdown => final(state).entries() == old(state).entries(),
        },
        final(state).stopped() == match event@ {
            EventView::Message(m) => m.level is Panic,
            EventView::Shutdown => true,
        },
        flush is Some <==> must_flush(
            final(state).stopped(),
            old(state).pending().len() + match event@ {
                EventView::Message(m) => 1int,
                EventView::Shutdown => 0int,
            },
        ),
        flush matches Some(text) ==> {
            &&& final(state).persisted() == final(state).entries()
            &&& final(state).pending() == Seq::<OutputView>::empty()
            &&& text@ == codec::spec_emit_doc(final(state).doc())
        },
        flush is None ==> final(state).persisted() == old(state).persisted(),
        final(state).stopped() ==> final(state).persisted() == final(state).entries(),
{
    match event {
        LogEvent::Shutdown => {
            state.stopping = true;
        },
        LogEvent::Message(m) => {
            let is_panic = match &m.level {
                LogKind::Panic(_) => true,
                _ => false,
            };
            let output = StructuredLogOutput { index: state.message_count, message: m };
            let ghost old_buffer = state.buffer@;
            state.buffer.push(output);
            state.message_count = state.message_count + 1;
            if is_panic {
                state.stopping = true;
            }
            proof {
                lemma_outputs_view_push(old_buffer, output);
                assert(state.pending() =~= old(state).pending().push(output@));
                assert(state.entries() =~= old(state).entries().push(output@));
                assert forall|i: int| 0 <= i < state.entries().len() implies (
                #[trigger] state.entries()[i]).index == i by {
                    if i < old(state).entries().len() {
                        assert(state.entries()[i] == old(state).entries()[i]);
                    }
                }
            }
        },
    }
    if state.stopping || state.buffer.len() >= FLUSH_BATCH {
        let ghost pre = *state;
        let ghost old_doc = state.data.messages@;
        let ghost old_buf = state.buffer@;
        state.data.messages.append(&mut state.buffer);
        proof {
            lemma_outputs_view_concat(old_doc, old_buf);
            assert(state.persisted() =~= pre.persisted() + pre.pending());
            assert(state.pending() =~= Seq::<OutputView>::empty());
            assert(state.entries() =~= pre.entries());
        }
        let text = codec::emit_document(&state.data);
        Some(text)
    } else {
        None
    }
}

/// Sequence indices are dense: in a well-formed consumer, the entry at
/// position `i` carries sequence index exactly `i` — indices start at
/// zero and increase by exactly one per record, with no gaps.
pub proof fn lemma_indices_dense(s: LogReceiver, i: int)
    requires
        s.wf(),
        0 <= i < s.entries().len(),
    ensures
        s.entries()[i].index == i,
{
}

/// Arrival order is preserved: of two entries taken by the consumer, the
/// earlier one carries the smaller sequence index.
pub proof fn lemma_arrival_order(s: LogReceiver, i: int, j: int)
    requires
        s.wf(),
        0 <= i < j < s.entries().len(),
    ensures
        s.entries()[i].index < s.entries()[j].index,
{
}

/// What is persisted is exactly a prefix of the entries taken so far, in
/// assignment order.
pub proof fn lemma_persisted_prefix(s: LogReceiver)
    ensures
        s.persisted() == s.entries().subrange(0, s.persisted().len() as int),
{
    assert(s.persisted() =~= s.entries().subrange(0, s.persisted().len() as int));
}

} // verus!
