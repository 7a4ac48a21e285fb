//! The frames that go back to the wrapper: what each response looks like on
//! the wire, how it is appended to an output buffer, and how a reader on the
//! other side takes a stream of them apart.

use crate::headers::{
    lemma_type_codes_round_trip, lemma_u32_le_round_trip, lemma_u64_le_round_trip, put_u32_le,
    read_u32_le, read_u64_le, u32_at, u32_from_le, u32_le_bytes, u64_from_le, u64_le_bytes,
    write_u64_le, ResponseType, CALLBACK_INDEX_END, HEADER_END, MESSAGE_LENGTH_END, POINTER_SIZE,
};
use vstd::prelude::*;

verus! {

/// A response as the wrapper reads it. A response that hands something over
/// carries the address at which it was left for the wrapper to take.
#[derive(Clone, Copy, Debug, PartialEq, Eq, Structural)]
pub enum Response {
    Null { callback_index: u32 },
    Value { callback_index: u32, pointer: u64 },
    RequestError { callback_index: u32, pointer: u64 },
    ClosingError { callback_index: u32, pointer: u64 },
}

impl Response {
    /// The identifier of the caller that this response is for.
    pub open spec fn callback_index(self) -> u32 {
        match self {
            Response::Null { callback_index } => callback_index,
            Response::Value { callback_index, .. } => callback_index,
            Response::RequestError { callback_index, .. } => callback_index,
            Response::ClosingError { callback_index, .. } => callback_index,
        }
    }

    pub open spec fn response_type(self) -> ResponseType {
        match self {
            Response::Null { .. } => ResponseType::Null,
            Response::Value { .. } => ResponseType::Value,
            Response::RequestError { .. } => ResponseType::RequestError,
            Response::ClosingError { .. } => ResponseType::ClosingError,
        }
    }

    /// The bytes that follow the header: none, or the pointer.
    pub open spec fn body(self) -> Seq<u8> {
        match self {
            Response::Null { .. } => Seq::empty(),
            Response::Value { pointer, .. } => u64_le_bytes(pointer),
            Response::RequestError { pointer, .. } => u64_le_bytes(pointer),
            Response::ClosingError { pointer, .. } => u64_le_bytes(pointer),
        }
    }

    /// The number of bytes the frame takes, header included.
    pub open spec fn frame_len(self) -> int {
        HEADER_END + self.body().len()
    }

    /// The frame that carries this response.
    pub open spec fn encode(self) -> Seq<u8> {
        header_bytes(self.frame_len() as u32, self.callback_index(), self.response_type())
            + self.body()
    }

    /// The response of the given type for the given caller.
    pub open spec fn with_pointer(
        response_type: ResponseType,
        callback_index: u32,
        pointer: u64,
    ) -> Response {
        match response_type {
            ResponseType::Null => Response::Null { callback_index },
            ResponseType::Value => Response::Value { callback_index, pointer },
            ResponseType::RequestError => Response::RequestError { callback_index, pointer },
            ResponseType::ClosingError => Response::ClosingError { callback_index, pointer },
        }
    }

    pub fn get_callback_index(&self) -> (callback_index: u32)
        ensures
            callback_index == self.callback_index(),
    {
        match self {
            Response::Null { callback_index } => *callback_index,
            Response::Value { callback_index, .. } => *callback_index,
            Response::RequestError { callback_index, .. } => *callback_index,
            Response::ClosingError { callback_index, .. } => *callback_index,
        }
    }

    pub fn get_response_type(&self) -> (response_type: ResponseType)
        ensures
            response_type == self.response_type(),
    {
        match self {
            Response::Null { .. } => ResponseType::Null,
            Response::Value { .. } => ResponseType::Value,
            Response::RequestError { .. } => ResponseType::RequestError,
            Response::ClosingError { .. } => ResponseType::ClosingError,
        }
    }
}

/// The twelve bytes of a response header.
pub open spec fn header_bytes(length: u32, callback_index: u32, response_type: ResponseType) -> Seq<
    u8,
> {
    u32_le_bytes(length) + u32_le_bytes(callback_index) + u32_le_bytes(response_type.code())
}

/// The frames of `responses`, one after the other.
pub open spec fn encode_responses(responses: Seq<Response>) -> Seq<u8>
    decreases responses.len(),
{
    if responses.len() == 0 {
        Seq::empty()
    } else {
        responses[0].encode() + encode_responses(responses.skip(1))
    }
}

/// What the start of a run of bytes is to the reader of responses.
pub enum ResponseParse {
    /// The frame's end has not arrived yet.
    Incomplete,
    /// No response frame can start like this.
    Malformed,
    /// A whole frame of `length` bytes.
    Complete { response: Response, length: int },
}

/// The responses found at the start of a run of bytes.
pub struct ResponseStream {
    /// The whole frames at the start, in order.
    pub responses: Seq<Response>,
    /// How many bytes those frames take.
    pub consumed: int,
    /// Whether the bytes after them cannot start a frame.
    pub malformed: bool,
}

/// Reads one response frame at the start of `s`. A null response is a bare
/// header; every other response is a header and a pointer.
pub open spec fn parse_response(s: Seq<u8>) -> ResponseParse {
    if s.len() < MESSAGE_LENGTH_END {
        ResponseParse::Incomplete
    } else {
        let length = u32_at(s, 0);
        if length < HEADER_END {
            ResponseParse::Malformed
        } else if s.len() < length {
            ResponseParse::Incomplete
        } else {
            let callback_index = u32_at(s, MESSAGE_LENGTH_END as int) as u32;
            match ResponseType::of_code(u32_at(s, CALLBACK_INDEX_END as int) as u32) {
                None => ResponseParse::Malformed,
                Some(ResponseType::Null) => if length == HEADER_END {
                    ResponseParse::Complete { response: Response::Null { callback_index }, length }
                } else {
                    ResponseParse::Malformed
                },
                Some(response_type) => if length == HEADER_END + POINTER_SIZE {
                    ResponseParse::Complete {
                        response: Response::with_pointer(
                            response_type,
                            callback_index,
                            u64_from_le(s.skip(HEADER_END as int)) as u64,
                        ),
                        length,
                    }
                } else {
                    ResponseParse::Malformed
                },
            }
        }
    }
}

/// A whole response frame is never longer than the bytes it was read from.
pub proof fn lemma_parse_response_bounds(s: Seq<u8>)
    ensures
        parse_response(s) matches ResponseParse::Complete { length, .. } ==> HEADER_END <= length
            <= s.len(),
{
}

/// Reads response frames from the start of `s` for as long as whole frames
/// follow each other.
pub open spec fn parse_responses(s: Seq<u8>) -> ResponseStream
    decreases s.len(),
{
    match parse_response(s) {
        ResponseParse::Incomplete => ResponseStream {
            responses: Seq::empty(),
            consumed: 0,
            malformed: false,
        },
        ResponseParse::Malformed => ResponseStream {
            responses: Seq::empty(),
            consumed: 0,
            malformed: true,
        },
        ResponseParse::Complete { response, length } => {
            proof {
                lemma_parse_response_bounds(s);
            }
            let rest = parse_responses(s.skip(length));
            ResponseStream {
                responses: seq![response] + rest.responses,
                consumed: length + rest.consumed,
                malformed: rest.malformed,
            }
        },
    }
}

/// Appending a response to a sequence appends its frame to the stream.
pub proof fn lemma_encode_responses_push(responses: Seq<Response>, response: Response)
    ensures
        encode_responses(responses.push(response)) == encode_responses(responses)
            + response.encode(),
    decreases responses.len(),
{
    let longer = responses.push(response);
    if responses.len() == 0 {
        assert(longer.skip(1) =~= Seq::<Response>::empty());
        assert(encode_responses(longer.skip(1)) =~= Seq::<u8>::empty());
        assert(encode_responses(longer) =~= encode_responses(responses) + response.encode());
    } else {
        lemma_encode_responses_push(responses.skip(1), response);
        assert(longer.skip(1) =~= responses.skip(1).push(response));
        assert(encode_responses(longer) =~= encode_responses(responses) + response.encode());
    }
}

/// A header reads back field by field.
proof fn lemma_header_reads_back(
    s: Seq<u8>,
    length: u32,
    callback_index: u32,
    response_type: ResponseType,
)
    requires
        s.len() >= HEADER_END,
        s.subrange(0, HEADER_END as int) == header_bytes(length, callback_index, response_type),
    ensures
        u32_at(s, 0) == length,
        u32_at(s, MESSAGE_LENGTH_END as int) == callback_index,
        u32_at(s, CALLBACK_INDEX_END as int) == response_type.code(),
{
    let header = s.subrange(0, HEADER_END as int);
    lemma_u32_le_round_trip(length);
    lemma_u32_le_round_trip(callback_index);
    lemma_u32_le_round_trip(response_type.code());
    let a = u32_le_bytes(length);
    let b = u32_le_bytes(callback_index);
    let c = u32_le_bytes(response_type.code());
    assert forall|i: int| 0 <= i < 12 implies s[i] == header[i] by {}
    assert(header.subrange(0, 4) =~= a);
    assert(header.subrange(4, 8) =~= b);
    assert(header.subrange(8, 12) =~= c);
    assert(header[0] == a[0] && header[1] == a[1] && header[2] == a[2] && header[3] == a[3]);
    assert(header[4] == header.subrange(4, 8)[0] && header[5] == header.subrange(4, 8)[1]
        && header[6] == header.subrange(4, 8)[2] && header[7] == header.subrange(4, 8)[3]);
    assert(header[8] == header.subrange(8, 12)[0] && header[9] == header.subrange(8, 12)[1]
        && header[10] == header.subrange(8, 12)[2] && header[11] == header.subrange(8, 12)[3]);
}

/// The frame of a response reads back as that response, whatever follows it.
pub proof fn lemma_parse_encoded_response(response: Response, tail: Seq<u8>)
    ensures
        parse_response(response.encode() + tail) == (ResponseParse::Complete {
            response,
            length: response.frame_len(),
        }),
        response.encode().len() == response.frame_len(),
        response.frame_len() == HEADER_END || response.frame_len() == HEADER_END + POINTER_SIZE,
{
    let frame = response.encode();
    let length = response.frame_len();
    let s = frame + tail;
    let header = header_bytes(length as u32, response.callback_index(), response.response_type());
    assert(response.body().len() == 0 || response.body().len() == 8) by {
        lemma_u64_le_round_trip(0);
        match response {
            Response::Null { .. } => {},
            Response::Value { pointer, .. } => {
                lemma_u64_le_round_trip(pointer);
            },
            Response::RequestError { pointer, .. } => {
                lemma_u64_le_round_trip(pointer);
            },
            Response::ClosingError { pointer, .. } => {
                lemma_u64_le_round_trip(pointer);
            },
        }
    }
    assert(header.len() == 12) by {
        lemma_u32_le_round_trip(length as u32);
        lemma_u32_le_round_trip(response.callback_index());
        lemma_u32_le_round_trip(response.response_type().code());
    }
    assert(s.subrange(0, HEADER_END as int) =~= header);
    lemma_header_reads_back(
        s,
        length as u32,
        response.callback_index(),
        response.response_type(),
    );
    lemma_type_codes_round_trip();
    assert(s.subrange(HEADER_END as int, length) =~= response.body());
    match response {
        Response::Null { .. } => {},
        Response::Value { pointer, .. } => {
            lemma_pointer_reads_back(s, pointer);
        },
        Response::RequestError { pointer, .. } => {
            lemma_pointer_reads_back(s, pointer);
        },
        Response::ClosingError { pointer, .. } => {
            lemma_pointer_reads_back(s, pointer);
        },
    }
}

/// A pointer written after a header reads back from there.
proof fn lemma_pointer_reads_back(s: Seq<u8>, pointer: u64)
    requires
        s.len() >= HEADER_END + POINTER_SIZE,
        s.subrange(HEADER_END as int, HEADER_END + POINTER_SIZE) == u64_le_bytes(pointer),
    ensures
        u64_from_le(s.skip(HEADER_END as int)) == pointer,
{
    lemma_u64_le_round_trip(pointer);
    let written = u64_le_bytes(pointer);
    let read = s.skip(HEADER_END as int);
    assert forall|i: int| 0 <= i < 8 implies read[i] == written[i] by {
        assert(s.subrange(HEADER_END as int, HEADER_END + POINTER_SIZE)[i] == read[i]);
    }
    assert(read.skip(4)[0] == written.skip(4)[0]);
    assert(read.skip(4)[1] == written.skip(4)[1]);
    assert(read.skip(4)[2] == written.skip(4)[2]);
    assert(read.skip(4)[3] == written.skip(4)[3]);
}

/// The frames of any sequence of responses, one after
/// the other, read back as that sequence: a reader finds each frame whole
/// and in its place, and nothing else.
pub proof fn response_stream_round_trip(responses: Seq<Response>)
    ensures
        parse_responses(encode_responses(responses)) == (ResponseStream {
            responses,
            consumed: encode_responses(responses).len() as int,
            malformed: false,
        }),
    decreases responses.len(),
{
    let stream = encode_responses(responses);
    if responses.len() == 0 {
        assert(parse_responses(stream).responses =~= responses);
    } else {
        let head = responses[0];
        let rest = encode_responses(responses.skip(1));
        lemma_parse_encoded_response(head, rest);
        assert(stream.skip(head.frame_len()) =~= rest);
        response_stream_round_trip(responses.skip(1));
        assert(seq![head] + responses.skip(1) =~= responses);
    }
}

/// Two streams that carry the same responses in
/// different orders read back as the same collection of responses: what a
/// reader learns does not depend on the order of arrival.
pub proof fn reply_order_is_immaterial(first: Seq<Response>, second: Seq<Response>)
    requires
        first.to_multiset() == second.to_multiset(),
    ensures
        parse_responses(encode_responses(first)).responses.to_multiset() == parse_responses(
            encode_responses(second),
        ).responses.to_multiset(),
{
    response_stream_round_trip(first);
    response_stream_round_trip(second);
}

/// Appends a header whose length field is `length`.
fn put_header(
    accumulated_outputs: &mut Vec<u8>,
    callback_index: u32,
    response_type: ResponseType,
    length: u32,
)
    ensures
        final(accumulated_outputs)@ == old(accumulated_outputs)@ + header_bytes(
            length,
            callback_index,
            response_type,
        ),
{
    put_u32_le(accumulated_outputs, length);
    put_u32_le(accumulated_outputs, callback_index);
    put_u32_le(accumulated_outputs, response_type.to_u32());
    assert(accumulated_outputs@ =~= old(accumulated_outputs)@ + header_bytes(
        length,
        callback_index,
        response_type,
    ));
}

/// The header could not be written.
#[derive(Clone, Copy, Debug, PartialEq, Eq, Structural)]
pub enum HeaderError {
    /// The frame is longer than the 32-bit length field can say.
    LengthTooLarge,
}

/// Appends the header of a frame of `length` bytes. A length that does not
/// fit the length field is refused and nothing is appended.
pub fn write_response_header(
    accumulated_outputs: &mut Vec<u8>,
    callback_index: u32,
    response_type: ResponseType,
    length: usize,
) -> (result: Result<(), HeaderError>)
    ensures
        length <= u32::MAX ==> result is Ok && final(accumulated_outputs)@ == old(
            accumulated_outputs,
        )@ + header_bytes(length as u32, callback_index, response_type),
        length > u32::MAX ==> result == Err::<(), HeaderError>(HeaderError::LengthTooLarge)
            && final(accumulated_outputs)@ == old(accumulated_outputs)@,
{
    if length > u32::MAX as usize {
        return Err(HeaderError::LengthTooLarge);
    }
    put_header(accumulated_outputs, callback_index, response_type, length as u32);
    Ok(())
}

/// Appends the frame of a null response.
pub fn write_null_response_header(accumulated_outputs: &mut Vec<u8>, callback_index: u32)
    ensures
        final(accumulated_outputs)@ == old(accumulated_outputs)@ + (Response::Null {
            callback_index,
        }).encode(),
{
    put_header(accumulated_outputs, callback_index, ResponseType::Null, HEADER_END as u32);
    assert(accumulated_outputs@ =~= old(accumulated_outputs)@ + (Response::Null {
        callback_index,
    }).encode());
}

/// Appends the body of a response that hands something over.
pub fn write_pointer_to_output(accumulated_outputs: &mut Vec<u8>, pointer_to_write: u64)
    ensures
        final(accumulated_outputs)@ == old(accumulated_outputs)@ + u64_le_bytes(pointer_to_write),
{
    write_u64_le(accumulated_outputs, pointer_to_write);
}

/// Appends the whole frame of `response`.
pub fn write_response(accumulated_outputs: &mut Vec<u8>, response: Response)
    ensures
        final(accumulated_outputs)@ == old(accumulated_outputs)@ + response.encode(),
{
    proof {
        lemma_u64_le_round_trip(0);
    }
    match response {
        Response::Null { callback_index } => {
            write_null_response_header(accumulated_outputs, callback_index);
        },
        Response::Value { callback_index, pointer } => {
            proof {
                lemma_u64_le_round_trip(pointer);
            }
            put_header(
                accumulated_outputs,
                callback_index,
                ResponseType::Value,
                (HEADER_END + POINTER_SIZE) as u32,
            );
            write_pointer_to_output(accumulated_outputs, pointer);
            assert(accumulated_outputs@ =~= old(accumulated_outputs)@ + response.encode());
        },
        Response::RequestError { callback_index, pointer } => {
            proof {
                lemma_u64_le_round_trip(pointer);
            }
            put_header(
                accumulated_outputs,
                callback_index,
                ResponseType::RequestError,
                (HEADER_END + POINTER_SIZE) as u32,
            );
            write_pointer_to_output(accumulated_outputs, pointer);
            assert(accumulated_outputs@ =~= old(accumulated_outputs)@ + response.encode());
        },
        Response::ClosingError { callback_index, pointer } => {
            proof {
                lemma_u64_le_round_trip(pointer);
            }
            put_header(
                accumulated_outputs,
                callback_index,
                ResponseType::ClosingError,
                (HEADER_END + POINTER_SIZE) as u32,
            );
            write_pointer_to_output(accumulated_outputs, pointer);
            assert(accumulated_outputs@ =~= old(accumulated_outputs)@ + response.encode());
        },
    }
}

/// What the bytes at the cursor are to the reader of responses.
#[derive(Clone, Copy, Debug, PartialEq, Eq, Structural)]
pub enum ResponseState {
    Partial,
    Malformed,
    Complete { response: Response, next: usize },
}

/// Reads the response frame that starts at `cursor`, as the wrapper does.
pub fn read_response(bytes: &[u8], cursor: usize) -> (state: ResponseState)
    requires
        cursor <= bytes.len(),
    ensures
        match parse_response(bytes@.skip(cursor as int)) {
            ResponseParse::Incomplete => state is Partial,
            ResponseParse::Malformed => state is Malformed,
            ResponseParse::Complete { response, length } => state == (ResponseState::Complete {
                response,
                next: (cursor + length) as usize,
            }) && cursor + length <= bytes.len(),
        },
{
    let ghost s = bytes@.skip(cursor as int);
    let available = bytes.len() - cursor;
    if available < MESSAGE_LENGTH_END {
        return ResponseState::Partial;
    }
    let length_field = read_u32_le(bytes, cursor);
    assert(u32_at(s, 0) == length_field);
    let length = length_field as usize;
    if length < HEADER_END {
        return ResponseState::Malformed;
    }
    if available < length {
        return ResponseState::Partial;
    }
    let callback_index = read_u32_le(bytes, cursor + MESSAGE_LENGTH_END);
    let code = read_u32_le(bytes, cursor + CALLBACK_INDEX_END);
    assert(u32_at(s, 4) == callback_index);
    assert(u32_at(s, 8) == code);
    match ResponseType::from_u32(code) {
        None => ResponseState::Malformed,
        Some(ResponseType::Null) => {
            if length == HEADER_END {
                ResponseState::Complete {
                    response: Response::Null { callback_index },
                    next: cursor + length,
                }
            } else {
                ResponseState::Malformed
            }
        },
        Some(response_type) => {
            if length == HEADER_END + POINTER_SIZE {
                let pointer = read_u64_le(bytes, cursor + HEADER_END);
                assert(s.skip(HEADER_END as int) =~= bytes@.skip(cursor + HEADER_END));
                let response = match response_type {
                    ResponseType::Null => Response::Null { callback_index },
                    ResponseType::Value => Response::Value { callback_index, pointer },
                    ResponseType::RequestError => Response::RequestError {
                        callback_index,
                        pointer,
                    },
                    ResponseType::ClosingError => Response::ClosingError {
                        callback_index,
                        pointer,
                    },
                };
                ResponseState::Complete { response, next: cursor + length }
            } else {
                ResponseState::Malformed
            }
        },
    }
}

} // verus!
