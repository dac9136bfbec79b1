use vstd::prelude::*;
use crate::channel::{channel_of, event_channel, exit_channel, exit_channel_of};
use vstd::utf8::{decode_utf8, valid_utf8};
use crate::decode::{lossy_text, unfinished_len, Utf8Stream};

verus! {

/// What one blocking read from a terminal gave.
pub enum ReadOutcome {
    /// These bytes; none at all means the end of the stream.
    Data(Vec<u8>),
    /// The read failed.
    Failed,
}

/// What the reader pump does after a read: emit `emit` on its channel, if
/// any; then announce the end of the session on the channel `closing`, if
/// any; and stop if `stop` is set.
pub struct ReaderAction {
    pub emit: Option<String>,
    pub closing: Option<String>,
    pub stop: bool,
}

/// The text `t` as an optional emission: nothing for an empty text.
pub open spec fn emission(emit: Option<String>, t: Seq<char>) -> bool {
    match emit {
        Some(s) => s@ == t && t.len() > 0,
        None => t.len() == 0,
    }
}

/// The decisions of the worker that reads a session's terminal and forwards
/// its output, as text, to the session's event channel.
pub struct ReaderPump {
    channel: String,
    exit: String,
    decoder: Utf8Stream,
    stopped: bool,
}

impl ReaderPump {
    /// The channel on which this pump emits.
    pub closed spec fn channel_spec(&self) -> Seq<char> {
        self.channel@
    }

    /// The channel on which this pump announces the end of its session.
    pub closed spec fn exit_spec(&self) -> Seq<char> {
        self.exit@
    }

    /// The bytes held back for the next read.
    pub closed spec fn pending(&self) -> Seq<u8> {
        self.decoder.pending()
    }

    /// Whether the pump has stopped for good.
    pub closed spec fn stopped(&self) -> bool {
        self.stopped
    }

    pub closed spec fn wf(&self) -> bool {
        self.decoder.wf()
    }

    /// A running pump for session `id`, holding nothing back.
    pub fn new(id: &str) -> (r: ReaderPump)
        ensures
            r.wf(),
            r.channel_spec() == channel_of(id@),
            r.exit_spec() == exit_channel_of(id@),
            r.pending() == Seq::<u8>::empty(),
            !r.stopped(),
    {
        ReaderPump { channel: event_channel(id), exit: exit_channel(id), decoder: Utf8Stream::new(), stopped: false }
    }

    /// The channel on which this pump emits.
    pub fn channel(&self) -> (r: &String)
        ensures
            r@ == self.channel_spec(),
    {
        &self.channel
    }

    /// Whether the pump has stopped for good.
    pub fn is_stopped(&self) -> (r: bool)
        ensures
            r == self.stopped(),
    {
        self.stopped
    }

    /// Decides what follows a read. Bytes are decoded after those held back,
    /// and an encoding cut by the end of the read waits for the next one.
    /// The end of the stream or a failed read flushes what was held back,
    /// announces the end of the session once, and stops the pump; a stopped
    /// pump emits nothing, whatever it is given. Valid UTF-8 is emitted as
    /// its own text.
    pub fn on_read(&mut self, outcome: ReadOutcome) -> (r: ReaderAction)
        requires
            old(self).wf(),
        ensures
            final(self).wf(),
            final(self).channel_spec() == old(self).channel_spec(),
            final(self).exit_spec() == old(self).exit_spec(),
            old(self).stopped() ==> r.emit is None && r.closing is None && r.stop && *final(self)
                == *old(self),
            !old(self).stopped() ==> match outcome {
                ReadOutcome::Data(b) if b@.len() > 0 => {
                    let all = old(self).pending() + b@;
                    let cut = all.len() - unfinished_len(all);
                    &&& emission(r.emit, lossy_text(all.subrange(0, cut)))
                    &&& valid_utf8(all.subrange(0, cut)) ==> emission(
                        r.emit,
                        decode_utf8(all.subrange(0, cut)),
                    )
                    &&& final(self).pending() == all.subrange(cut, all.len() as int)
                    &&& r.closing is None
                    &&& !r.stop && !final(self).stopped()
                },
                _ => {
                    &&& emission(r.emit, lossy_text(old(self).pending()))
                    &&& valid_utf8(old(self).pending()) ==> emission(
                        r.emit,
                        decode_utf8(old(self).pending()),
                    )
                    &&& final(self).pending() == Seq::<u8>::empty()
                    &&& r.closing is Some && r.closing->Some_0@ == old(self).exit_spec()
                    &&& r.stop && final(self).stopped()
                },
            },
    {
        if self.stopped {
            return ReaderAction { emit: None, closing: None, stop: true };
        }
        let (text, stop) = match outcome {
            ReadOutcome::Data(b) => {
                if b.len() > 0 {
                    (self.decoder.feed(b.as_slice()), false)
                } else {
                    (self.decoder.finish(), true)
                }
            },
            ReadOutcome::Failed => (self.decoder.finish(), true),
        };
        self.stopped = stop;
        let emit = if text.as_str().unicode_len() > 0 { Some(text) } else { None };
        let closing = if stop { Some(self.exit.clone()) } else { None };
        ReaderAction { emit, closing, stop }
    }
}

/// The decisions of the worker that owns a session's write side: each chunk
/// taken from the queue is written whole, in the order taken, until a write
/// fails.
pub struct WriterPump {
    stopped: bool,
}

/// The bytes that a writer pump, stopped or not, writes for one chunk taken
/// from its queue.
pub open spec fn write_for(stopped: bool, chunk: Seq<u8>) -> Option<Seq<u8>> {
    if stopped {
        None
    } else {
        Some(chunk)
    }
}

/// The bytes that a writer pump in state `stopped` writes for the chunks
/// `chunks`, every write succeeding.
pub open spec fn delivered(stopped: bool, chunks: Seq<Seq<u8>>) -> Seq<u8>
    decreases chunks.len(),
{
    if chunks.len() == 0 {
        Seq::empty()
    } else {
        match write_for(stopped, chunks[0]) {
            Some(w) => w + delivered(stopped, chunks.drop_first()),
            None => Seq::empty(),
        }
    }
}

/// The chunks `chunks` joined in order.
pub open spec fn joined(chunks: Seq<Seq<u8>>) -> Seq<u8>
    decreases chunks.len(),
{
    if chunks.len() == 0 {
        Seq::empty()
    } else {
        chunks[0] + joined(chunks.drop_first())
    }
}

impl WriterPump {
    /// Whether the pump has stopped for good.
    pub closed spec fn stopped(&self) -> bool {
        self.stopped
    }

    /// A running pump.
    pub fn new() -> (r: WriterPump)
        ensures
            !r.stopped(),
    {
        WriterPump { stopped: false }
    }

    /// Whether the pump has stopped for good.
    pub fn is_stopped(&self) -> (r: bool)
        ensures
            r == self.stopped(),
    {
        self.stopped
    }

    /// The bytes to write for a chunk taken from the queue: the chunk itself,
    /// whole, while the pump runs; nothing once it has stopped.
    pub fn on_chunk(&self, chunk: Vec<u8>) -> (r: Option<Vec<u8>>)
        ensures
            match write_for(self.stopped(), chunk@) {
                Some(w) => r is Some && r->Some_0@ == w,
                None => r is None,
            },
    {
        if self.stopped {
            None
        } else {
            Some(chunk)
        }
    }

    /// A write failed: the pump stops for good.
    pub fn on_write_failed(&mut self)
        ensures
            final(self).stopped(),
    {
        self.stopped = true;
    }
}

/// A running writer pump whose writes all succeed hands its terminal the
/// chunks it was given, whole and in the order given, and nothing else.
pub proof fn lemma_writes_keep_order(chunks: Seq<Seq<u8>>)
    ensures
        delivered(false, chunks) == joined(chunks),
    decreases chunks.len(),
{
    if chunks.len() > 0 {
        lemma_writes_keep_order(chunks.drop_first());
    }
}

} // verus!
