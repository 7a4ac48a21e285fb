//! The reply writer of a connection. Responses are appended to an
//! accumulation buffer one whole frame at a time; a flush hands the buffer to
//! the socket piece by piece while new frames keep accumulating, and at most
//! one flush runs at a time.

use crate::headers::ResponseType;
use crate::responses::{
    encode_responses, lemma_encode_responses_push, parse_responses, response_stream_round_trip,
    write_response, Response, ResponseStream,
};
use vstd::prelude::*;
use vstd::slice::slice_subrange;

verus! {

/// What the writer reads of a reply of the backing store: whether it is nil
/// and, if it is not, the address at which it was left for the wrapper.
#[derive(Clone, Copy, Debug, PartialEq, Eq, Structural)]
pub enum ReplyValue {
    Nil,
    Leaked { pointer: u64 },
}

impl ReplyValue {
    /// The response that carries this reply to the caller `callback_index`.
    pub open spec fn response(self, callback_index: u32) -> Response {
        match self {
            ReplyValue::Nil => Response::Null { callback_index },
            ReplyValue::Leaked { pointer } => Response::Value { callback_index, pointer },
        }
    }
}

/// What happened since the writer last said what to do.
#[derive(Clone, Copy, Debug, PartialEq, Eq, Structural)]
pub enum FlushEvent {
    /// A task appended a frame and asks for the buffer to be drained.
    Requested,
    /// The socket took this many of the pending bytes.
    Written(usize),
    /// The socket was not ready, or the write was interrupted.
    WouldBlock,
    /// The socket failed.
    Failed,
}

/// What the caller does next.
#[derive(Clone, Copy, Debug, PartialEq, Eq, Structural)]
pub enum FlushStep {
    /// Nothing: there is nothing to write, or another flush is writing it.
    Idle,
    /// Wait until the socket is writable and write the pending bytes.
    Write,
    /// Tell the session that the transport failed, and stop.
    Close,
}

/// The bytes of a writer, by how far they have come.
#[verifier::ext_equal]
pub struct Output {
    /// Every byte the socket took so far.
    pub sent: Seq<u8>,
    /// The bytes that the running flush has still to write. A flush runs
    /// exactly while there are such bytes.
    pub pending: Seq<u8>,
    /// The bytes that wait for the next turn of a flush.
    pub queued: Seq<u8>,
}

impl Output {
    /// Whether a flush holds the writer.
    pub open spec fn flushing(self) -> bool {
        self.pending.len() > 0
    }

    /// Every byte that was appended and has not reached the socket.
    pub open spec fn unsent(self) -> Seq<u8> {
        self.pending + self.queued
    }

    /// The output after `frame` was appended.
    pub open spec fn enqueued(self, frame: Seq<u8>) -> Output {
        Output { sent: self.sent, pending: self.pending, queued: self.queued + frame }
    }

    /// The output after the socket took the first `count` pending bytes.
    pub open spec fn written(self, count: int) -> Output {
        Output {
            sent: self.sent + self.pending.take(count),
            pending: self.pending.skip(count),
            queued: self.queued,
        }
    }

    /// The output after a flush with nothing left to write took what
    /// accumulated.
    pub open spec fn refilled(self) -> Output {
        Output { sent: self.sent, pending: self.queued, queued: Seq::empty() }
    }

    /// What the caller of a flush that goes on or ends does next.
    pub open spec fn next_step(self) -> FlushStep {
        if self.flushing() {
            FlushStep::Write
        } else {
            FlushStep::Idle
        }
    }

    /// One step of draining the output to the socket.
    ///
    /// A request to flush starts a flush unless one is running, which will
    /// see what was appended, or nothing waits. A running flush writes what
    /// it took until the socket has taken all of it, then takes what
    /// accumulated meanwhile, and ends when nothing did. A socket that is
    /// not ready is tried again. A failure of the socket ends the flush, and
    /// what it had not written goes back to the head of the queue. Without
    /// a running flush a report of the socket changes nothing.
    pub open spec fn step(self, event: FlushEvent) -> (Output, FlushStep) {
        match event {
            FlushEvent::Requested => if self.flushing() {
                (self, FlushStep::Idle)
            } else {
                (self.refilled(), self.refilled().next_step())
            },
            FlushEvent::Written(written_bytes) => if !self.flushing() {
                (self, FlushStep::Idle)
            } else {
                let count = if written_bytes <= self.pending.len() {
                    written_bytes as int
                } else {
                    self.pending.len() as int
                };
                let written = self.written(count);
                if written.flushing() {
                    (written, FlushStep::Write)
                } else {
                    (written.refilled(), written.refilled().next_step())
                }
            },
            FlushEvent::WouldBlock => (self, self.next_step()),
            FlushEvent::Failed => (
                Output { sent: self.sent, pending: Seq::empty(), queued: self.unsent() },
                FlushStep::Close,
            ),
        }
    }
}

/// No step of a flush drops a byte or writes one twice: what was sent and
/// what waits are together what they were before.
pub proof fn step_keeps_every_byte(output: Output, event: FlushEvent)
    ensures
        output.step(event).0.sent + output.step(event).0.unsent() == output.sent
            + output.unsent(),
        output.sent.is_prefix_of(output.step(event).0.sent),
{
    let next = output.step(event).0;
    match event {
        FlushEvent::Written(written_bytes) => {
            if output.flushing() {
                let count = if written_bytes <= output.pending.len() {
                    written_bytes as int
                } else {
                    output.pending.len() as int
                };
                assert(output.pending.take(count) + output.pending.skip(count)
                    =~= output.pending);
                assert(next.sent + next.unsent() =~= output.sent + (output.pending.take(count)
                    + output.pending.skip(count)) + output.queued);
            }
        },
        _ => {},
    }
    assert(next.sent + next.unsent() =~= output.sent + output.unsent());
}

/// The output side of one connection.
pub struct Writer {
    accumulated_outputs: Vec<u8>,
    in_flight: Vec<u8>,
    written: usize,
    frames: Ghost<Seq<Response>>,
    sent: Ghost<Seq<u8>>,
}

impl View for Writer {
    type V = Output;

    closed spec fn view(&self) -> Output {
        Output {
            sent: self.sent@,
            pending: self.in_flight@.skip(self.written as int),
            queued: self.accumulated_outputs@,
        }
    }
}

impl Writer {
    /// Every response appended so far, in the order of the calls.
    pub closed spec fn frames(&self) -> Seq<Response> {
        self.frames@
    }

    /// What was sent and what waits are together the frames appended so
    /// far.
    pub closed spec fn well_formed(&self) -> bool {
        &&& self.written <= self.in_flight@.len()
        &&& self@.sent + self@.unsent() == encode_responses(self.frames@)
    }

    /// A writer that has written nothing and has nothing to write.
    pub fn new() -> (writer: Writer)
        ensures
            writer.well_formed(),
            writer.frames() == Seq::<Response>::empty(),
            writer@ == (Output { sent: Seq::empty(), pending: Seq::empty(), queued: Seq::empty() }),
    {
        let writer = Writer {
            accumulated_outputs: Vec::new(),
            in_flight: Vec::new(),
            written: 0,
            frames: Ghost(Seq::empty()),
            sent: Ghost(Seq::empty()),
        };
        assert(writer@ =~= (Output {
            sent: Seq::empty(),
            pending: Seq::empty(),
            queued: Seq::empty(),
        }));
        assert(writer@.sent + writer@.unsent() =~= encode_responses(writer.frames@));
        writer
    }

    /// Appends the whole frame of `response` behind everything appended
    /// before. What a running flush is writing is not touched.
    pub fn enqueue(&mut self, response: Response)
        requires
            old(self).well_formed(),
        ensures
            final(self).well_formed(),
            final(self).frames() == old(self).frames().push(response),
            final(self)@ == old(self)@.enqueued(response.encode()),
    {
        write_response(&mut self.accumulated_outputs, response);
        proof {
            lemma_encode_responses_push(self.frames@, response);
            assert(self@ =~= old(self)@.enqueued(response.encode()));
            assert(self@.sent + self@.unsent() =~= (old(self)@.sent + old(self)@.unsent())
                + response.encode());
        }
        self.frames = Ghost(self.frames@.push(response));
    }

    /// The bytes to hand to the socket now.
    pub fn pending(&self) -> (bytes: &[u8])
        requires
            self.well_formed(),
        ensures
            bytes@ == self@.pending,
    {
        slice_subrange(self.in_flight.as_slice(), self.written, self.in_flight.len())
    }

    /// Whether a flush holds the writer.
    pub fn flushing(&self) -> (flushing: bool)
        requires
            self.well_formed(),
        ensures
            flushing == self@.flushing(),
    {
        self.written < self.in_flight.len()
    }

    /// The number of bytes that wait for the next turn of a flush.
    pub fn queued_len(&self) -> (len: usize)
        ensures
            len == self@.queued.len(),
    {
        self.accumulated_outputs.len()
    }

    /// Takes the accumulated bytes as the next thing to write. The buffer
    /// that was written becomes the empty accumulation buffer.
    fn take_accumulated(&mut self)
        requires
            old(self).well_formed(),
            !old(self)@.flushing(),
        ensures
            final(self).well_formed(),
            final(self).frames() == old(self).frames(),
            final(self)@ == old(self)@.refilled(),
    {
        self.in_flight.clear();
        std::mem::swap(&mut self.in_flight, &mut self.accumulated_outputs);
        self.written = 0;
        proof {
            assert(old(self)@.pending =~= Seq::<u8>::empty());
            assert(self@ =~= old(self)@.refilled());
            assert(self@.unsent() =~= old(self)@.unsent());
        }
    }
}

/// Whatever the order in which tasks appended their responses, the bytes
/// that reached the socket and those that still wait are, together, the
/// frames of those responses one after the other in the order of the calls:
/// a reader takes them apart into exactly those responses, and no frame is
/// ever cut by another.
pub proof fn stream_is_whole_frames(writer: Writer)
    requires
        writer.well_formed(),
    ensures
        writer@.sent + writer@.unsent() == encode_responses(writer.frames()),
        parse_responses(writer@.sent + writer@.unsent()) == (ResponseStream {
            responses: writer.frames(),
            consumed: (writer@.sent + writer@.unsent()).len() as int,
            malformed: false,
        }),
{
    response_stream_round_trip(writer.frames());
}

/// Appends the response to a reply of the backing store: a null response
/// for a nil reply, and otherwise a value response that points at the reply.
pub fn write_redis_value(value: ReplyValue, callback_index: u32, writer: &mut Writer)
    requires
        old(writer).well_formed(),
    ensures
        final(writer).well_formed(),
        final(writer).frames() == old(writer).frames().push(value.response(callback_index)),
        final(writer)@ == old(writer)@.enqueued(value.response(callback_index).encode()),
{
    match value {
        ReplyValue::Nil => writer.enqueue(Response::Null { callback_index }),
        ReplyValue::Leaked { pointer } => writer.enqueue(
            Response::Value { callback_index, pointer },
        ),
    }
}

/// The error response of the given type that points at `error_pointer`.
pub open spec fn error_response(
    response_type: ResponseType,
    callback_index: u32,
    error_pointer: u64,
) -> Response {
    if response_type is ClosingError {
        Response::ClosingError { callback_index, pointer: error_pointer }
    } else {
        Response::RequestError { callback_index, pointer: error_pointer }
    }
}

/// Appends an error response that points at the text of the error.
pub fn write_error(
    error_pointer: u64,
    callback_index: u32,
    writer: &mut Writer,
    response_type: ResponseType,
)
    requires
        old(writer).well_formed(),
        response_type is RequestError || response_type is ClosingError,
    ensures
        final(writer).well_formed(),
        final(writer).frames() == old(writer).frames().push(
            error_response(response_type, callback_index, error_pointer),
        ),
        final(writer)@ == old(writer)@.enqueued(
            error_response(response_type, callback_index, error_pointer).encode(),
        ),
{
    match response_type {
        ResponseType::ClosingError => writer.enqueue(
            Response::ClosingError { callback_index, pointer: error_pointer },
        ),
        _ => writer.enqueue(Response::RequestError { callback_index, pointer: error_pointer }),
    }
}

/// Drains the writer to the socket by one step, as `Output::step` says:
/// from what happened to what the caller does next. No response is appended
/// or lost on the way.
#[verifier::rlimit(40)]
pub fn write_to_output(writer: &mut Writer, event: FlushEvent) -> (step: FlushStep)
    requires
        old(writer).well_formed(),
    ensures
        final(writer).well_formed(),
        final(writer).frames() == old(writer).frames(),
        final(writer)@ == old(writer)@.step(event).0,
        step == old(writer)@.step(event).1,
{
    proof {
        step_keeps_every_byte(writer@, event);
    }
    match event {
        FlushEvent::Requested => {
            if writer.flushing() {
                return FlushStep::Idle;
            }
            writer.take_accumulated();
            if writer.flushing() {
                FlushStep::Write
            } else {
                FlushStep::Idle
            }
        },
        FlushEvent::Written(written_bytes) => {
            if !writer.flushing() {
                return FlushStep::Idle;
            }
            let remaining = writer.in_flight.len() - writer.written;
            let count = if written_bytes <= remaining {
                written_bytes
            } else {
                remaining
            };
            let ghost written = old(writer)@.written(count as int);
            writer.sent = Ghost(written.sent);
            writer.written = writer.written + count;
            proof {
                assert(writer@ =~= written);
                assert(written.sent + written.unsent() =~= old(writer)@.step(event).0.sent
                    + old(writer)@.step(event).0.unsent());
            }
            if writer.flushing() {
                FlushStep::Write
            } else {
                writer.take_accumulated();
                if writer.flushing() {
                    FlushStep::Write
                } else {
                    FlushStep::Idle
                }
            }
        },
        FlushEvent::WouldBlock => {
            if writer.flushing() {
                FlushStep::Write
            } else {
                FlushStep::Idle
            }
        },
        FlushEvent::Failed => {
            if writer.flushing() {
                let mut rest: Vec<u8> = Vec::new();
                rest.extend_from_slice(
                    slice_subrange(
                        writer.in_flight.as_slice(),
                        writer.written,
                        writer.in_flight.len(),
                    ),
                );
                rest.extend_from_slice(writer.accumulated_outputs.as_slice());
                assert(rest@ =~= old(writer)@.unsent());
                writer.accumulated_outputs = rest;
                writer.in_flight.clear();
                writer.written = 0;
            }
            assert(writer@ =~= old(writer)@.step(event).0);
            FlushStep::Close
        },
    }
}

} // verus!
