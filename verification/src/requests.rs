//! What a stream of request frames means: the frame of a request, and the
//! requests that a run of bytes holds.

use crate::headers::{
    lemma_type_codes_round_trip, lemma_u32_le_round_trip, put_u32_le, u32_at, u32_from_le,
    u32_le_bytes, RequestType, CALLBACK_INDEX_END, HEADER_END, KEY_LENGTH_SIZE,
    MESSAGE_LENGTH_END,
};
use vstd::prelude::*;

verus! {

/// A request as the wrapper meant it, with its payload as plain bytes.
pub enum Request {
    /// The address of the backing server, as text.
    ServerAddress { callback_index: u32, address: Seq<u8> },
    /// Read the value stored under `key`.
    GetString { callback_index: u32, key: Seq<u8> },
    /// Store `value` under `key`.
    SetString { callback_index: u32, key: Seq<u8>, value: Seq<u8> },
}

/// Why a run of bytes cannot be the start of a request frame.
#[derive(Clone, Copy, Debug, PartialEq, Eq, Structural)]
pub enum FramingError {
    /// The length field is smaller than a header.
    FrameTooShort { length: u32 },
    /// The type field holds a reserved number.
    UnknownRequestType { code: u32 },
    /// A `SetString` frame ends before its key-length field does.
    KeyLengthMissing { length: u32 },
    /// A `SetString` frame announces a key that runs past the end of the frame.
    KeyTooLong { key_length: u32, length: u32 },
}

impl Request {
    /// The identifier by which the wrapper finds the caller again.
    pub open spec fn callback_index(self) -> u32 {
        match self {
            Request::ServerAddress { callback_index, .. } => callback_index,
            Request::GetString { callback_index, .. } => callback_index,
            Request::SetString { callback_index, .. } => callback_index,
        }
    }

    pub open spec fn request_type(self) -> RequestType {
        match self {
            Request::ServerAddress { .. } => RequestType::ServerAddress,
            Request::GetString { .. } => RequestType::GetString,
            Request::SetString { .. } => RequestType::SetString,
        }
    }

    /// The bytes that follow the header.
    pub open spec fn body(self) -> Seq<u8> {
        match self {
            Request::ServerAddress { address, .. } => address,
            Request::GetString { key, .. } => key,
            Request::SetString { key, value, .. } => u32_le_bytes(key.len() as u32) + key + value,
        }
    }

    /// The number of bytes the frame takes, header included.
    pub open spec fn frame_len(self) -> int {
        HEADER_END + self.body().len()
    }

    /// Whether the frame's length can be written in the 32-bit length field.
    pub open spec fn encodable(self) -> bool {
        self.frame_len() <= u32::MAX
    }

    /// The frame that carries this request.
    #[verifier::opaque]
    pub open spec fn encode(self) -> Seq<u8> {
        u32_le_bytes(self.frame_len() as u32) + u32_le_bytes(self.callback_index()) + u32_le_bytes(
            self.request_type().code(),
        ) + self.body()
    }
}

/// Appends a request header whose length field is `length`.
fn put_request_header(
    output: &mut Vec<u8>,
    length: u32,
    callback_index: u32,
    request_type: RequestType,
)
    ensures
        final(output)@ == old(output)@ + u32_le_bytes(length) + u32_le_bytes(callback_index)
            + u32_le_bytes(request_type.code()),
{
    put_u32_le(output, length);
    put_u32_le(output, callback_index);
    put_u32_le(output, request_type.to_u32());
}

/// Appends the frame that carries the address of the backing server, as
/// the wrapper does to open a session. An address too long for a frame is
/// refused and nothing is appended.
pub fn write_server_address(output: &mut Vec<u8>, callback_index: u32, address: &[u8]) -> (written:
    bool)
    ensures
        written == (Request::ServerAddress { callback_index, address: address@ }).encodable(),
        written ==> final(output)@ == old(output)@ + (Request::ServerAddress {
            callback_index,
            address: address@,
        }).encode(),
        !written ==> final(output)@ == old(output)@,
{
    if address.len() > u32::MAX as usize - HEADER_END {
        return false;
    }
    let length = (HEADER_END + address.len()) as u32;
    put_request_header(output, length, callback_index, RequestType::ServerAddress);
    output.extend_from_slice(address);
    reveal(Request::encode);
    assert(output@ =~= old(output)@ + (Request::ServerAddress {
        callback_index,
        address: address@,
    }).encode());
    true
}

/// Appends the frame that asks for the value under `key`. A key too long
/// for a frame is refused and nothing is appended.
pub fn write_get_request(output: &mut Vec<u8>, callback_index: u32, key: &[u8]) -> (written: bool)
    ensures
        written == (Request::GetString { callback_index, key: key@ }).encodable(),
        written ==> final(output)@ == old(output)@ + (Request::GetString {
            callback_index,
            key: key@,
        }).encode(),
        !written ==> final(output)@ == old(output)@,
{
    if key.len() > u32::MAX as usize - HEADER_END {
        return false;
    }
    let length = (HEADER_END + key.len()) as u32;
    put_request_header(output, length, callback_index, RequestType::GetString);
    output.extend_from_slice(key);
    reveal(Request::encode);
    assert(output@ =~= old(output)@ + (Request::GetString { callback_index, key: key@ }).encode());
    true
}

/// Appends the frame that stores `value` under `key`: the header, the
/// length of the key, the key and the value. A payload too long for a frame
/// is refused and nothing is appended.
#[verifier::rlimit(40)]
pub fn write_set_request(
    output: &mut Vec<u8>,
    callback_index: u32,
    key: &[u8],
    value: &[u8],
) -> (written: bool)
    ensures
        written == (Request::SetString { callback_index, key: key@, value: value@ }).encodable(),
        written ==> final(output)@ == old(output)@ + (Request::SetString {
            callback_index,
            key: key@,
            value: value@,
        }).encode(),
        !written ==> final(output)@ == old(output)@,
{
    let room = u32::MAX as usize - HEADER_END - KEY_LENGTH_SIZE;
    proof {
        lemma_u32_le_round_trip(key@.len() as u32);
    }
    if key.len() > room || value.len() > room - key.len() {
        return false;
    }
    let length = (HEADER_END + KEY_LENGTH_SIZE + key.len() + value.len()) as u32;
    put_request_header(output, length, callback_index, RequestType::SetString);
    put_u32_le(output, key.len() as u32);
    output.extend_from_slice(key);
    output.extend_from_slice(value);
    reveal(Request::encode);
    assert(output@ =~= old(output)@ + (Request::SetString {
        callback_index,
        key: key@,
        value: value@,
    }).encode());
    true
}

/// What the start of a run of bytes turns out to be.
pub enum FrameParse {
    /// The frame's end has not arrived yet.
    Incomplete,
    /// No frame can start like this.
    Malformed(FramingError),
    /// A whole frame of `length` bytes.
    Complete { request: Request, length: int },
}

/// The requests found at the start of a run of bytes.
pub struct StreamParse {
    /// The whole frames at the start, in order.
    pub requests: Seq<Request>,
    /// How many bytes those frames take.
    pub consumed: int,
    /// What is wrong with the bytes after them, if they cannot start a frame.
    pub error: Option<FramingError>,
}

/// Reads one frame at the start of `s`. The length field decides: below a
/// header's size it is an error at once, beyond the bytes at hand the frame
/// is incomplete, and otherwise the header and body are read.
#[verifier::opaque]
pub open spec fn parse_frame(s: Seq<u8>) -> FrameParse {
    if s.len() < MESSAGE_LENGTH_END {
        FrameParse::Incomplete
    } else {
        let length = u32_at(s, 0);
        if length < HEADER_END {
            FrameParse::Malformed(FramingError::FrameTooShort { length: length as u32 })
        } else if s.len() < length {
            FrameParse::Incomplete
        } else {
            parse_whole_frame(s, length)
        }
    }
}

/// Reads the frame that takes the first `length` bytes of `s`.
pub open spec fn parse_whole_frame(s: Seq<u8>, length: int) -> FrameParse
    recommends
        HEADER_END <= length <= s.len(),
{
    let callback_index = u32_at(s, MESSAGE_LENGTH_END as int) as u32;
    let code = u32_at(s, CALLBACK_INDEX_END as int) as u32;
    match RequestType::of_code(code) {
        None => FrameParse::Malformed(FramingError::UnknownRequestType { code }),
        Some(RequestType::ServerAddress) => FrameParse::Complete {
            request: Request::ServerAddress {
                callback_index,
                address: s.subrange(HEADER_END as int, length),
            },
            length,
        },
        Some(RequestType::GetString) => FrameParse::Complete {
            request: Request::GetString { callback_index, key: s.subrange(HEADER_END as int, length) },
            length,
        },
        Some(RequestType::SetString) => {
            let key_start = HEADER_END + KEY_LENGTH_SIZE;
            if length < key_start {
                FrameParse::Malformed(FramingError::KeyLengthMissing { length: length as u32 })
            } else {
                let key_length = u32_at(s, HEADER_END as int);
                if key_start + key_length > length {
                    FrameParse::Malformed(
                        FramingError::KeyTooLong {
                            key_length: key_length as u32,
                            length: length as u32,
                        },
                    )
                } else {
                    FrameParse::Complete {
                        request: Request::SetString {
                            callback_index,
                            key: s.subrange(key_start, key_start + key_length),
                            value: s.subrange(key_start + key_length, length),
                        },
                        length,
                    }
                }
            }
        },
    }
}

/// Reads frames from the start of `s` for as long as whole frames follow
/// each other.
pub open spec fn parse_stream(s: Seq<u8>) -> StreamParse
    decreases s.len(),
{
    match parse_frame(s) {
        FrameParse::Incomplete => StreamParse {
            requests: Seq::empty(),
            consumed: 0,
            error: None,
        },
        FrameParse::Malformed(error) => StreamParse {
            requests: Seq::empty(),
            consumed: 0,
            error: Some(error),
        },
        FrameParse::Complete { request, length } => {
            proof {
                lemma_parse_frame_bounds(s);
            }
            let rest = parse_stream(s.skip(length));
            StreamParse {
                requests: seq![request] + rest.requests,
                consumed: length + rest.consumed,
                error: rest.error,
            }
        },
    }
}

/// The frames of `requests`, one after the other.
pub open spec fn encode_all(requests: Seq<Request>) -> Seq<u8>
    decreases requests.len(),
{
    if requests.len() == 0 {
        Seq::empty()
    } else {
        requests[0].encode() + encode_all(requests.skip(1))
    }
}

/// A whole frame is never longer than the bytes it was read from.
pub proof fn lemma_parse_frame_bounds(s: Seq<u8>)
    ensures
        parse_frame(s) matches FrameParse::Complete { length, .. } ==> HEADER_END <= length
            <= s.len() && length <= u32::MAX,
{
    reveal(parse_frame);
}

/// The frames found never take more bytes than there are.
pub proof fn lemma_parse_stream_bounds(s: Seq<u8>)
    ensures
        0 <= parse_stream(s).consumed <= s.len(),
        parse_stream(s).consumed >= HEADER_END * parse_stream(s).requests.len(),
    decreases s.len(),
{
    lemma_parse_frame_bounds(s);
    if let FrameParse::Complete { length, .. } = parse_frame(s) {
        lemma_parse_stream_bounds(s.skip(length));
    }
}

/// What a whole or a malformed frame is does not depend on what follows it.
pub proof fn lemma_parse_frame_extend(s: Seq<u8>, t: Seq<u8>)
    ensures
        !(parse_frame(s) is Incomplete) ==> parse_frame(s + t) == parse_frame(s),
{
    reveal(parse_frame);
    if !(parse_frame(s) is Incomplete) {
        let u = s + t;
        assert(u32_at(u, 0) == u32_at(s, 0));
        let length = u32_at(s, 0);
        if length >= HEADER_END {
            assert(u32_at(u, 4) == u32_at(s, 4));
            assert(u32_at(u, 8) == u32_at(s, 8));
            assert(u.subrange(HEADER_END as int, length) =~= s.subrange(HEADER_END as int, length));
            if length >= HEADER_END + KEY_LENGTH_SIZE {
                assert(u32_at(u, 12) == u32_at(s, 12));
                let key_length = u32_at(s, 12);
                if 16 + key_length <= length {
                    assert(u.subrange(16, 16 + key_length) =~= s.subrange(16, 16 + key_length));
                    assert(u.subrange(16 + key_length, length) =~= s.subrange(
                        16 + key_length,
                        length,
                    ));
                }
            }
        }
    }
}

/// Reading goes on over the seam between two runs of bytes as if there were
/// none: the frames of `s + t` are those of `s`, then those of what `s` left
/// over followed by `t`. An error in `s` stays where it is.
pub proof fn lemma_parse_stream_append(s: Seq<u8>, t: Seq<u8>)
    ensures
        parse_stream(s).error is Some ==> parse_stream(s + t) == parse_stream(s),
        parse_stream(s).error is None ==> {
            let first = parse_stream(s);
            let second = parse_stream(s.skip(first.consumed) + t);
            &&& parse_stream(s + t).requests == first.requests + second.requests
            &&& parse_stream(s + t).consumed == first.consumed + second.consumed
            &&& parse_stream(s + t).error == second.error
        },
    decreases s.len(),
{
    lemma_parse_frame_extend(s, t);
    lemma_parse_frame_bounds(s);
    match parse_frame(s) {
        FrameParse::Incomplete => {
            assert(s.skip(0) =~= s);
        },
        FrameParse::Malformed(_) => {},
        FrameParse::Complete { request, length } => {
            let rest = s.skip(length);
            lemma_parse_stream_append(rest, t);
            assert((s + t).skip(length) =~= rest + t);
            let first = parse_stream(s);
            let inner = parse_stream(rest);
            if inner.error is None {
                lemma_parse_stream_bounds(rest);
                assert(s.skip(first.consumed) =~= rest.skip(inner.consumed));
                let second = parse_stream(rest.skip(inner.consumed) + t);
                assert(parse_stream(s + t).requests =~= first.requests + second.requests);
            } else {
                assert(parse_stream(s + t).requests =~= first.requests);
            }
        },
    }
}

/// The frame of a request reads back as that request, whatever follows it.
pub proof fn lemma_parse_encoded_frame(request: Request, tail: Seq<u8>)
    requires
        request.encodable(),
    ensures
        parse_frame(request.encode() + tail) == (FrameParse::Complete {
            request,
            length: request.frame_len(),
        }),
        request.encode().len() == request.frame_len(),
{
    reveal(Request::encode);
    reveal(parse_frame);
    let frame = request.encode();
    let length = request.frame_len();
    let s = frame + tail;
    lemma_u32_le_round_trip(length as u32);
    lemma_u32_le_round_trip(request.callback_index());
    lemma_u32_le_round_trip(request.request_type().code());
    lemma_type_codes_round_trip();
    let a = u32_le_bytes(length as u32);
    let b = u32_le_bytes(request.callback_index());
    let c = u32_le_bytes(request.request_type().code());
    assert(frame.len() == length);
    assert(s.subrange(0, 4) =~= a);
    assert(s.subrange(4, 8) =~= b);
    assert(s.subrange(8, 12) =~= c);
    assert(u32_at(s, 0) == u32_from_le(s.subrange(0, 4)));
    assert(u32_at(s, 4) == u32_from_le(s.subrange(4, 8)));
    assert(u32_at(s, 8) == u32_from_le(s.subrange(8, 12)));
    assert(s.subrange(HEADER_END as int, length) =~= request.body());
    match request {
        Request::SetString { key, value, .. } => {
            let k = u32_le_bytes(key.len() as u32);
            lemma_u32_le_round_trip(key.len() as u32);
            assert(s.subrange(12, 16) =~= k);
            assert(u32_at(s, 12) == u32_from_le(s.subrange(12, 16)));
            assert(s.subrange(16, 16 + key.len() as int) =~= key);
            assert(s.subrange(16 + key.len() as int, length) =~= value);
        },
        _ => {},
    }
}

/// A frame that is cut short holds no request yet, and nothing wrong.
pub proof fn lemma_cut_frame_is_incomplete(request: Request, k: int)
    requires
        request.encodable(),
        0 <= k < request.frame_len(),
    ensures
        parse_frame(request.encode().take(k)) is Incomplete,
{
    reveal(parse_frame);
    let frame = request.encode();
    let length = request.frame_len();
    lemma_parse_encoded_frame(request, Seq::empty());
    assert(frame + Seq::<u8>::empty() =~= frame);
    if k >= 4 {
        assert(u32_at(frame.take(k), 0) == u32_at(frame, 0));
    }
}

/// Where a whole frame starts the bytes, the requests of the bytes are its
/// request and then those of what follows the frame.
pub proof fn lemma_parse_stream_unfold(s: Seq<u8>)
    ensures
        parse_frame(s) matches FrameParse::Complete { request, length } ==> {
            let rest = parse_stream(s.skip(length));
            &&& HEADER_END <= length <= s.len()
            &&& parse_stream(s).requests == seq![request] + rest.requests
            &&& parse_stream(s).consumed == length + rest.consumed
            &&& parse_stream(s).error == rest.error
        },
{
    lemma_parse_frame_bounds(s);
}

/// The frames of a sequence of requests read back as that sequence, followed
/// by whatever the bytes after them hold.
pub proof fn lemma_parse_encoded_stream(requests: Seq<Request>, tail: Seq<u8>)
    requires
        forall|i: int| 0 <= i < requests.len() ==> (#[trigger] requests[i]).encodable(),
    ensures
        parse_stream(encode_all(requests) + tail).requests == requests + parse_stream(
            tail,
        ).requests,
        parse_stream(encode_all(requests) + tail).consumed == encode_all(requests).len()
            + parse_stream(tail).consumed,
        parse_stream(encode_all(requests) + tail).error == parse_stream(tail).error,
    decreases requests.len(),
{
    if requests.len() == 0 {
        assert(encode_all(requests) + tail =~= tail);
        assert(requests + parse_stream(tail).requests =~= parse_stream(tail).requests);
    } else {
        let head = requests[0];
        let others = requests.skip(1);
        let frame = head.encode();
        let s = encode_all(requests) + tail;
        let rest = encode_all(others) + tail;
        assert(s =~= frame + rest);
        lemma_parse_encoded_frame(head, rest);
        assert(s.skip(frame.len() as int) =~= rest);
        assert forall|i: int| 0 <= i < others.len() implies (#[trigger] others[i]).encodable() by {
            assert(others[i] == requests[i + 1]);
        }
        lemma_parse_encoded_stream(others, tail);
        lemma_parse_stream_unfold(s);
        assert(seq![head] + (others + parse_stream(tail).requests) =~= requests + parse_stream(
            tail,
        ).requests);
        assert(encode_all(requests).len() == frame.len() + encode_all(others).len());
    }
}

/// The bytes of `chunks`, one chunk after the other.
pub open spec fn concat(chunks: Seq<Seq<u8>>) -> Seq<u8>
    decreases chunks.len(),
{
    if chunks.len() == 0 {
        Seq::empty()
    } else {
        chunks[0] + concat(chunks.skip(1))
    }
}

/// What a reader has after a series of reads.
pub struct Fed {
    /// The requests handed out so far, in order.
    pub requests: Seq<Request>,
    /// The bytes kept for the next read.
    pub pending: Seq<u8>,
    /// The error that stopped the reader, if one did.
    pub error: Option<FramingError>,
}

/// A reader that holds `pending` receives `chunks` one read at a time. After
/// each read it takes the whole frames out of what it holds and keeps the
/// rest; at the first malformed frame it stops.
pub open spec fn feed(pending: Seq<u8>, chunks: Seq<Seq<u8>>) -> Fed
    decreases chunks.len(),
{
    if chunks.len() == 0 {
        Fed { requests: Seq::empty(), pending, error: None }
    } else {
        let held = pending + chunks[0];
        let parsed = parse_stream(held);
        if parsed.error is Some {
            Fed { requests: Seq::empty(), pending: held, error: parsed.error }
        } else {
            let later = feed(held.skip(parsed.consumed), chunks.skip(1));
            Fed {
                requests: parsed.requests + later.requests,
                pending: later.pending,
                error: later.error,
            }
        }
    }
}

/// What is left after the whole frames is the start of a frame that has not
/// arrived in full.
pub proof fn lemma_rest_is_incomplete(s: Seq<u8>)
    requires
        parse_stream(s).error is None,
    ensures
        parse_frame(s.skip(parse_stream(s).consumed)) is Incomplete,
    decreases s.len(),
{
    lemma_parse_frame_bounds(s);
    match parse_frame(s) {
        FrameParse::Incomplete => {
            assert(s.skip(0) =~= s);
        },
        FrameParse::Malformed(_) => {},
        FrameParse::Complete { length, .. } => {
            let rest = s.skip(length);
            lemma_rest_is_incomplete(rest);
            lemma_parse_stream_bounds(rest);
            assert(s.skip(length + parse_stream(rest).consumed) =~= rest.skip(
                parse_stream(rest).consumed,
            ));
        },
    }
}

/// Reading in chunks finds what reading at once finds: where the bytes held
/// and those still to come are free of errors, the reader hands out their
/// frames in order and keeps what follows the last whole frame.
pub proof fn lemma_feed_is_parse(pending: Seq<u8>, chunks: Seq<Seq<u8>>)
    requires
        parse_frame(pending) is Incomplete,
        parse_stream(pending + concat(chunks)).error is None,
    ensures
        feed(pending, chunks).requests == parse_stream(pending + concat(chunks)).requests,
        feed(pending, chunks).pending == (pending + concat(chunks)).skip(
            parse_stream(pending + concat(chunks)).consumed,
        ),
        feed(pending, chunks).error is None,
    decreases chunks.len(),
{
    let total = pending + concat(chunks);
    if chunks.len() == 0 {
        assert(total =~= pending);
        assert(pending.skip(0) =~= pending);
    } else {
        let held = pending + chunks[0];
        let later = concat(chunks.skip(1));
        assert(total =~= held + later);
        lemma_parse_stream_append(held, later);
        let first = parse_stream(held);
        let rest = held.skip(first.consumed);
        lemma_rest_is_incomplete(held);
        lemma_parse_stream_bounds(held);
        lemma_feed_is_parse(rest, chunks.skip(1));
        let second = parse_stream(rest + later);
        lemma_parse_stream_bounds(rest + later);
        assert(total.skip(first.consumed + second.consumed) =~= (rest + later).skip(
            second.consumed,
        ));
    }
}

/// The frames of any sequence of requests, cut into
/// chunks at any places and read chunk by chunk, come out as that sequence,
/// in order, and no byte is left over.
pub proof fn chunked_frames_round_trip(requests: Seq<Request>, chunks: Seq<Seq<u8>>)
    requires
        forall|i: int| 0 <= i < requests.len() ==> (#[trigger] requests[i]).encodable(),
        concat(chunks) == encode_all(requests),
    ensures
        feed(Seq::empty(), chunks) == (Fed {
            requests,
            pending: Seq::empty(),
            error: None,
        }),
{
    let stream = encode_all(requests);
    let nothing = Seq::<u8>::empty();
    lemma_parse_encoded_stream(requests, nothing);
    assert(stream + nothing =~= stream);
    assert(nothing + concat(chunks) =~= stream);
    assert(parse_frame(nothing) is Incomplete) by {
        reveal(parse_frame);
    }
    assert(requests + parse_stream(nothing).requests =~= requests);
    lemma_feed_is_parse(nothing, chunks);
    assert(stream.skip(stream.len() as int) =~= nothing);
}

/// A frame cut in two at any place inside it gives no
/// request while only the first part is there, and exactly its request, with
/// nothing left over, once the second part has come.
pub proof fn cut_frame_appears_once(request: Request, k: int)
    requires
        request.encodable(),
        0 < k < request.frame_len(),
    ensures
        parse_stream(request.encode().take(k)) == (StreamParse {
            requests: Seq::empty(),
            consumed: 0,
            error: None,
        }),
        feed(Seq::empty(), seq![request.encode().take(k), request.encode().skip(k)]) == (Fed {
            requests: seq![request],
            pending: Seq::empty(),
            error: None,
        }),
{
    let frame = request.encode();
    let chunks = seq![frame.take(k), frame.skip(k)];
    lemma_cut_frame_is_incomplete(request, k);
    lemma_parse_encoded_frame(request, Seq::empty());
    let requests = seq![request];
    assert(requests.skip(1) =~= Seq::<Request>::empty());
    assert(encode_all(requests.skip(1)) =~= Seq::<u8>::empty());
    assert(encode_all(requests) =~= frame);
    assert(chunks.skip(1) =~= seq![frame.skip(k)]);
    assert(chunks.skip(1).skip(1) =~= Seq::<Seq<u8>>::empty());
    assert(concat(chunks.skip(1).skip(1)) =~= Seq::<u8>::empty());
    assert(concat(chunks.skip(1)) =~= frame.skip(k));
    assert(concat(chunks) =~= frame);
    chunked_frames_round_trip(requests, chunks);
}

} // verus!
