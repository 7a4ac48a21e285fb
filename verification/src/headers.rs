//! Layout of a frame header and the little-endian integers it is made of.

use vstd::prelude::*;

verus! {

/// Offset just past the `length` field of a header.
pub const MESSAGE_LENGTH_END: usize = 4;

/// Offset just past the `callback_index` field of a header.
pub const CALLBACK_INDEX_END: usize = 8;

/// Size of a frame header, which is also the offset of the body.
pub const HEADER_END: usize = 12;

/// Size of the key-length field that opens the body of a `SetString` request.
pub const KEY_LENGTH_SIZE: usize = 4;

/// Size of the pointer field that is the body of every non-null response.
pub const POINTER_SIZE: usize = 8;

/// The kinds of request a wrapper can send.
#[derive(Clone, Copy, Debug, PartialEq, Eq, Structural)]
pub enum RequestType {
    /// Bootstrap frame carrying the address of the backing server.
    ServerAddress,
    /// Read the value stored under a key.
    GetString,
    /// Store a value under a key.
    SetString,
}

/// The kinds of response the core sends back.
#[derive(Clone, Copy, Debug, PartialEq, Eq, Structural)]
pub enum ResponseType {
    /// The request succeeded and there is nothing to hand over.
    Null,
    /// The body points at a reply value.
    Value,
    /// The body points at the text of an error that concerns one request.
    RequestError,
    /// The body points at the text of an error that ends the session.
    ClosingError,
}

impl RequestType {
    /// The number that stands for this request type on the wire.
    pub open spec fn code(self) -> u32 {
        match self {
            RequestType::ServerAddress => 0,
            RequestType::GetString => 1,
            RequestType::SetString => 2,
        }
    }

    /// The request type that a wire number stands for, if it is not reserved.
    pub open spec fn of_code(code: u32) -> Option<RequestType> {
        if code == 0 {
            Some(RequestType::ServerAddress)
        } else if code == 1 {
            Some(RequestType::GetString)
        } else if code == 2 {
            Some(RequestType::SetString)
        } else {
            None
        }
    }

    pub fn to_u32(self) -> (code: u32)
        ensures
            code == self.code(),
    {
        match self {
            RequestType::ServerAddress => 0,
            RequestType::GetString => 1,
            RequestType::SetString => 2,
        }
    }

    pub fn from_u32(code: u32) -> (request_type: Option<RequestType>)
        ensures
            request_type == RequestType::of_code(code),
    {
        if code == 0 {
            Some(RequestType::ServerAddress)
        } else if code == 1 {
            Some(RequestType::GetString)
        } else if code == 2 {
            Some(RequestType::SetString)
        } else {
            None
        }
    }
}

impl ResponseType {
    /// The number that stands for this response type on the wire.
    pub open spec fn code(self) -> u32 {
        match self {
            ResponseType::Null => 0,
            ResponseType::Value => 1,
            ResponseType::RequestError => 2,
            ResponseType::ClosingError => 3,
        }
    }

    /// The response type that a wire number stands for, if it is not reserved.
    pub open spec fn of_code(code: u32) -> Option<ResponseType> {
        if code == 0 {
            Some(ResponseType::Null)
        } else if code == 1 {
            Some(ResponseType::Value)
        } else if code == 2 {
            Some(ResponseType::RequestError)
        } else if code == 3 {
            Some(ResponseType::ClosingError)
        } else {
            None
        }
    }

    pub fn to_u32(self) -> (code: u32)
        ensures
            code == self.code(),
    {
        match self {
            ResponseType::Null => 0,
            ResponseType::Value => 1,
            ResponseType::RequestError => 2,
            ResponseType::ClosingError => 3,
        }
    }

    pub fn from_u32(code: u32) -> (response_type: Option<ResponseType>)
        ensures
            response_type == ResponseType::of_code(code),
    {
        if code == 0 {
            Some(ResponseType::Null)
        } else if code == 1 {
            Some(ResponseType::Value)
        } else if code == 2 {
            Some(ResponseType::RequestError)
        } else if code == 3 {
            Some(ResponseType::ClosingError)
        } else {
            None
        }
    }
}

/// A wire number names the type it was made from, and no other.
pub proof fn lemma_type_codes_round_trip()
    ensures
        forall|t: RequestType| #[trigger] RequestType::of_code(t.code()) == Some(t),
        forall|t: ResponseType| #[trigger] ResponseType::of_code(t.code()) == Some(t),
        forall|c: u32|
            (#[trigger] RequestType::of_code(c)) matches Some(t) ==> t.code() == c,
        forall|c: u32|
            (#[trigger] ResponseType::of_code(c)) matches Some(t) ==> t.code() == c,
{
}

/// The four bytes of `x`, least significant first.
pub open spec fn u32_le_bytes(x: u32) -> Seq<u8> {
    seq![
        (x % 256) as u8,
        (x / 256 % 256) as u8,
        (x / 65536 % 256) as u8,
        (x / 16777216) as u8,
    ]
}

/// The eight bytes of `x`, least significant first.
pub open spec fn u64_le_bytes(x: u64) -> Seq<u8> {
    u32_le_bytes((x % 4294967296) as u32) + u32_le_bytes((x / 4294967296) as u32)
}

/// The number whose little-endian bytes are the first four of `s`.
pub open spec fn u32_from_le(s: Seq<u8>) -> int
    recommends
        s.len() >= 4,
{
    s[0] + 256 * s[1] + 65536 * s[2] + 16777216 * s[3]
}

/// The number whose little-endian bytes are the first eight of `s`.
pub open spec fn u64_from_le(s: Seq<u8>) -> int
    recommends
        s.len() >= 8,
{
    u32_from_le(s) + 4294967296 * u32_from_le(s.skip(4))
}

/// The little-endian number that `s` holds at offset `at`.
pub open spec fn u32_at(s: Seq<u8>, at: int) -> int
    recommends
        0 <= at,
        at + 4 <= s.len(),
{
    s[at] + 256 * s[at + 1] + 65536 * s[at + 2] + 16777216 * s[at + 3]
}

/// Reading back what was written gives the number that was written.
pub proof fn lemma_u32_le_round_trip(x: u32)
    ensures
        u32_le_bytes(x).len() == 4,
        u32_from_le(u32_le_bytes(x)) == x,
{
}

/// Reading back a 64-bit number gives the number that was written.
pub proof fn lemma_u64_le_round_trip(x: u64)
    ensures
        u64_le_bytes(x).len() == 8,
        u64_from_le(u64_le_bytes(x)) == x,
{
    let low = (x % 4294967296) as u32;
    let high = (x / 4294967296) as u32;
    lemma_u32_le_round_trip(low);
    lemma_u32_le_round_trip(high);
    assert(u64_le_bytes(x).skip(4) =~= u32_le_bytes(high));
    assert(u32_from_le(u64_le_bytes(x)) == u32_from_le(u32_le_bytes(low)));
}

/// Reads the little-endian 32-bit number at offset `at`.
pub fn read_u32_le(bytes: &[u8], at: usize) -> (x: u32)
    requires
        at + 4 <= bytes.len(),
    ensures
        x == u32_at(bytes@, at as int),
        x == u32_from_le(bytes@.skip(at as int)),
{
    let b0: u32 = bytes[at] as u32;
    let b1: u32 = bytes[at + 1] as u32;
    let b2: u32 = bytes[at + 2] as u32;
    let b3: u32 = bytes[at + 3] as u32;
    b0 + b1 * 256 + b2 * 65536 + b3 * 16777216
}

/// Reads the little-endian 64-bit number at offset `at`.
pub fn read_u64_le(bytes: &[u8], at: usize) -> (x: u64)
    requires
        at + 8 <= bytes.len(),
    ensures
        x == u64_from_le(bytes@.skip(at as int)),
{
    let low: u64 = read_u32_le(bytes, at) as u64;
    let high: u64 = read_u32_le(bytes, at + 4) as u64;
    assert(bytes@.skip(at as int).skip(4) =~= bytes@.skip(at + 4));
    low + high * 4294967296
}

/// Appends `n` as four bytes, least significant first. This is
/// `bytes::BufMut::put_u32_le` on a `Vec<u8>`, which extends the vector by
/// `n.to_le_bytes()`.
#[verifier::external_body]
pub(crate) fn put_u32_le(buffer: &mut Vec<u8>, n: u32)
    ensures
        final(buffer)@ == old(buffer)@ + u32_le_bytes(n),
{
    bytes::BufMut::put_u32_le(buffer, n)
}

/// Appends `n` as eight bytes, least significant first. This is
/// `byteorder::WriteBytesExt::write_u64` with `LittleEndian` on a `Vec<u8>`:
/// it hands `n.to_le_bytes()` to `write_all`, which for a vector appends and
/// reports no error.
#[verifier::external_body]
pub(crate) fn write_u64_le(buffer: &mut Vec<u8>, n: u64)
    ensures
        final(buffer)@ == old(buffer)@ + u64_le_bytes(n),
{
    byteorder::WriteBytesExt::write_u64::<byteorder::LittleEndian>(buffer, n).unwrap()
}

} // verus!
