//! The receive buffer of a connection. Bytes arrive in whatever pieces the
//! transport delivers; whole request frames leave as parsed requests that
//! share the buffer they were read from, and the start of a frame that has
//! not arrived in full moves to the head of a fresh buffer.

use crate::headers::{
    read_u32_le, u32_at, RequestType, CALLBACK_INDEX_END, HEADER_END, KEY_LENGTH_SIZE,
    MESSAGE_LENGTH_END,
};
use crate::requests::{
    chunked_frames_round_trip, concat, encode_all, feed, lemma_parse_frame_bounds,
    lemma_parse_stream_bounds, parse_frame, parse_stream, FrameParse, FramingError, Request,
};
use std::ops::Range;
use std::rc::Rc;
use vstd::prelude::*;
use vstd::slice::slice_subrange;

verus! {

/// The capacity of a buffer that holds no oversized frame.
pub const DEFAULT_BUFFER_SIZE: usize = 65_536;

/// A buffer that parsed requests read their payload from.
pub type SharedBuffer = Rc<Vec<u8>>;

/// Where the payload of a request lies in the buffer it shares.
#[derive(Debug)]
pub enum RequestRanges {
    ServerAddress { address: Range<usize> },
    GetString { key: Range<usize> },
    SetString { key: Range<usize>, value: Range<usize> },
}

/// A request that arrived in full.
#[derive(Debug)]
pub struct WholeRequest {
    pub callback_index: u32,
    pub request_type: RequestRanges,
    pub buffer: SharedBuffer,
}

/// Whether `range` lies inside a buffer of `len` bytes.
pub open spec fn range_within(range: Range<usize>, len: nat) -> bool {
    range.start <= range.end <= len
}

impl RequestRanges {
    /// Whether every range lies inside a buffer of `len` bytes.
    pub open spec fn within(self, len: nat) -> bool {
        match self {
            RequestRanges::ServerAddress { address } => range_within(address, len),
            RequestRanges::GetString { key } => range_within(key, len),
            RequestRanges::SetString { key, value } => range_within(key, len) && range_within(
                value,
                len,
            ),
        }
    }

    /// The request that these ranges cut out of `buffer`.
    pub open spec fn request(self, callback_index: u32, buffer: Seq<u8>) -> Request {
        match self {
            RequestRanges::ServerAddress { address } => Request::ServerAddress {
                callback_index,
                address: buffer.subrange(address.start as int, address.end as int),
            },
            RequestRanges::GetString { key } => Request::GetString {
                callback_index,
                key: buffer.subrange(key.start as int, key.end as int),
            },
            RequestRanges::SetString { key, value } => Request::SetString {
                callback_index,
                key: buffer.subrange(key.start as int, key.end as int),
                value: buffer.subrange(value.start as int, value.end as int),
            },
        }
    }
}

impl View for WholeRequest {
    type V = Request;

    open spec fn view(&self) -> Request {
        self.request_type.request(self.callback_index, self.buffer@)
    }
}

impl WholeRequest {
    /// The ranges lie inside the shared buffer.
    pub open spec fn well_formed(&self) -> bool {
        self.request_type.within(self.buffer@.len())
    }
}

/// The bytes of `buffer` that `range` covers.
pub fn bytes_in<'a>(buffer: &'a SharedBuffer, range: &Range<usize>) -> (bytes: &'a [u8])
    requires
        range_within(*range, buffer@.len()),
    ensures
        bytes@ == buffer@.subrange(range.start as int, range.end as int),
{
    slice_subrange(buffer.as_slice(), range.start, range.end)
}

/// The requests that a vector of parsed requests stands for.
pub open spec fn views(requests: Seq<WholeRequest>) -> Seq<Request> {
    Seq::new(requests.len(), |i: int| requests[i]@)
}

/// Whether every request of the vector lies inside the buffer it shares.
pub open spec fn all_well_formed(requests: Seq<WholeRequest>) -> bool {
    forall|i: int| 0 <= i < requests.len() ==> (#[trigger] requests[i]).well_formed()
}

/// The capacity that doubling `capacity` reaches once it holds `needed`
/// bytes. Doubling stops at the largest size the machine can address.
pub open spec fn grown_capacity(capacity: int, needed: int) -> int
    decreases
        if capacity < needed {
            needed - capacity
        } else {
            0
        },
{
    if capacity >= needed || capacity <= 0 {
        capacity
    } else if 2 * capacity > usize::MAX {
        usize::MAX as int
    } else {
        grown_capacity(2 * capacity, needed)
    }
}

/// The capacity of the buffer that holds `pending`: the default, doubled
/// until the frame that `pending` starts fits.
pub open spec fn capacity_for(pending: Seq<u8>) -> int {
    if pending.len() >= MESSAGE_LENGTH_END {
        grown_capacity(DEFAULT_BUFFER_SIZE as int, u32_at(pending, 0))
    } else {
        DEFAULT_BUFFER_SIZE as int
    }
}

/// Growing never gives less than was there, and gives enough.
pub proof fn lemma_grown_capacity_bounds(capacity: int, needed: int)
    requires
        0 < capacity <= usize::MAX,
        needed <= usize::MAX,
    ensures
        capacity <= grown_capacity(capacity, needed) <= usize::MAX,
        needed <= grown_capacity(capacity, needed),
        needed <= capacity ==> grown_capacity(capacity, needed) == capacity,
    decreases
        if capacity < needed {
            needed - capacity
        } else {
            0
        },
{
    if capacity < needed && 2 * capacity <= usize::MAX {
        lemma_grown_capacity_bounds(2 * capacity, needed);
    }
}

/// The buffer that holds the start of a frame has room for the whole frame,
/// and a buffer that holds at most a frame of the default size has the
/// default capacity.
pub proof fn capacity_fits_the_frame(pending: Seq<u8>)
    ensures
        DEFAULT_BUFFER_SIZE <= capacity_for(pending) <= usize::MAX,
        pending.len() >= MESSAGE_LENGTH_END && u32_at(pending, 0) <= usize::MAX ==> u32_at(
            pending,
            0,
        ) <= capacity_for(pending),
        pending.len() < MESSAGE_LENGTH_END || u32_at(pending, 0) <= DEFAULT_BUFFER_SIZE
            ==> capacity_for(pending) == DEFAULT_BUFFER_SIZE,
{
    if pending.len() >= MESSAGE_LENGTH_END && u32_at(pending, 0) <= usize::MAX {
        lemma_grown_capacity_bounds(DEFAULT_BUFFER_SIZE as int, u32_at(pending, 0));
    }
}

/// Once the reads have brought the last byte of a sequence of
/// frames, however large those frames are, the buffer that stays is empty
/// and has the default capacity again.
pub proof fn capacity_returns_to_default(requests: Seq<Request>, chunks: Seq<Seq<u8>>)
    requires
        forall|i: int| 0 <= i < requests.len() ==> (#[trigger] requests[i]).encodable(),
        concat(chunks) == encode_all(requests),
    ensures
        capacity_for(feed(Seq::empty(), chunks).pending) == DEFAULT_BUFFER_SIZE,
{
    chunked_frames_round_trip(requests, chunks);
}

/// Doubles `capacity` until it holds `needed` bytes.
fn grow_capacity(capacity: usize, needed: usize) -> (grown: usize)
    requires
        capacity > 0,
    ensures
        grown == grown_capacity(capacity as int, needed as int),
{
    let mut grown: usize = capacity;
    while grown < needed
        invariant
            0 < grown,
            grown_capacity(grown as int, needed as int) == grown_capacity(
                capacity as int,
                needed as int,
            ),
        decreases
            if grown < needed {
                needed - grown
            } else {
                0
            },
    {
        if grown > usize::MAX / 2 {
            grown = usize::MAX;
        } else {
            grown = grown * 2;
        }
    }
    grown
}

/// Where a whole frame lies in the buffer, before the buffer is shared.
#[derive(Clone, Copy)]
struct Found {
    callback_index: u32,
    request_type: RequestType,
    body_start: usize,
    split: usize,
    end: usize,
}

impl Found {
    spec fn ranges(self) -> RequestRanges {
        match self.request_type {
            RequestType::ServerAddress => RequestRanges::ServerAddress {
                address: self.body_start..self.end,
            },
            RequestType::GetString => RequestRanges::GetString { key: self.body_start..self.end },
            RequestType::SetString => RequestRanges::SetString {
                key: self.body_start..self.split,
                value: self.split..self.end,
            },
        }
    }

    spec fn within(self, len: nat) -> bool {
        self.body_start <= self.split <= self.end <= len
    }

    spec fn request(self, buffer: Seq<u8>) -> Request {
        self.ranges().request(self.callback_index, buffer)
    }

    fn into_request(self, buffer: SharedBuffer) -> (request: WholeRequest)
        requires
            self.within(buffer@.len()),
        ensures
            request.well_formed(),
            request.buffer@ == buffer@,
            request@ == self.request(buffer@),
    {
        let request_type = match self.request_type {
            RequestType::ServerAddress => RequestRanges::ServerAddress {
                address: self.body_start..self.end,
            },
            RequestType::GetString => RequestRanges::GetString { key: self.body_start..self.end },
            RequestType::SetString => RequestRanges::SetString {
                key: self.body_start..self.split,
                value: self.split..self.end,
            },
        };
        WholeRequest { callback_index: self.callback_index, request_type, buffer }
    }
}

/// What the bytes at the cursor turn out to be.
enum RequestState {
    Partial,
    Malformed(FramingError),
    Complete { found: Found, next: usize },
}

/// Reads the frame that starts at `cursor`.
#[verifier::rlimit(40)]
fn parse_request(buffer: &[u8], cursor: usize) -> (state: RequestState)
    requires
        cursor <= buffer.len(),
    ensures
        match parse_frame(buffer@.skip(cursor as int)) {
            FrameParse::Incomplete => state is Partial,
            FrameParse::Malformed(error) => state == RequestState::Malformed(error),
            FrameParse::Complete { request, length } => {
                &&& state matches RequestState::Complete { found, next }
                &&& next == cursor + length
                &&& found.within(buffer@.len())
                &&& found.request(buffer@) == request
            },
        },
{
    let ghost s = buffer@.skip(cursor as int);
    proof {
        reveal(parse_frame);
    }
    let available = buffer.len() - cursor;
    if available < MESSAGE_LENGTH_END {
        return RequestState::Partial;
    }
    let length_field = read_u32_le(buffer, cursor);
    assert(u32_at(s, 0) == length_field);
    let length = length_field as usize;
    if length < HEADER_END {
        return RequestState::Malformed(FramingError::FrameTooShort { length: length_field });
    }
    if available < length {
        return RequestState::Partial;
    }
    let callback_index = read_u32_le(buffer, cursor + MESSAGE_LENGTH_END);
    let code = read_u32_le(buffer, cursor + CALLBACK_INDEX_END);
    assert(u32_at(s, 4) == callback_index);
    assert(u32_at(s, 8) == code);
    let body_start = cursor + HEADER_END;
    let end = cursor + length;
    assert(s.subrange(HEADER_END as int, length as int) =~= buffer@.subrange(
        body_start as int,
        end as int,
    ));
    match RequestType::from_u32(code) {
        None => RequestState::Malformed(FramingError::UnknownRequestType { code }),
        Some(RequestType::ServerAddress) => RequestState::Complete {
            found: Found {
                callback_index,
                request_type: RequestType::ServerAddress,
                body_start,
                split: end,
                end,
            },
            next: end,
        },
        Some(RequestType::GetString) => RequestState::Complete {
            found: Found {
                callback_index,
                request_type: RequestType::GetString,
                body_start,
                split: end,
                end,
            },
            next: end,
        },
        Some(RequestType::SetString) => {
            if length < HEADER_END + KEY_LENGTH_SIZE {
                return RequestState::Malformed(
                    FramingError::KeyLengthMissing { length: length_field },
                );
            }
            let key_length_field = read_u32_le(buffer, body_start);
            assert(u32_at(s, 12) == key_length_field);
            let key_length = key_length_field as usize;
            let key_start = body_start + KEY_LENGTH_SIZE;
            if key_length > end - key_start {
                return RequestState::Malformed(
                    FramingError::KeyTooLong { key_length: key_length_field, length: length_field },
                );
            }
            let split = key_start + key_length;
            assert(s.subrange(16, 16 + key_length as int) =~= buffer@.subrange(
                key_start as int,
                split as int,
            ));
            assert(s.subrange(16 + key_length as int, length as int) =~= buffer@.subrange(
                split as int,
                end as int,
            ));
            RequestState::Complete {
                found: Found {
                    callback_index,
                    request_type: RequestType::SetString,
                    body_start: key_start,
                    split,
                    end,
                },
                next: end,
            }
        },
    }
}

/// The receive buffer of one connection.
pub struct RotatingBuffer {
    backing_buffer: Vec<u8>,
    capacity: usize,
}

impl View for RotatingBuffer {
    type V = Seq<u8>;

    /// The bytes that arrived and have not left as requests.
    closed spec fn view(&self) -> Seq<u8> {
        self.backing_buffer@
    }
}

impl RotatingBuffer {
    /// The capacity that the current buffer was made with.
    pub closed spec fn reported_capacity(&self) -> int {
        self.capacity as int
    }

    /// An empty buffer of the default capacity.
    pub fn new() -> (buffer: RotatingBuffer)
        ensures
            buffer@ == Seq::<u8>::empty(),
            buffer.reported_capacity() == DEFAULT_BUFFER_SIZE,
    {
        RotatingBuffer {
            backing_buffer: Vec::with_capacity(DEFAULT_BUFFER_SIZE),
            capacity: DEFAULT_BUFFER_SIZE,
        }
    }

    /// The capacity that the current buffer was made with.
    pub fn capacity(&self) -> (capacity: usize)
        ensures
            capacity == self.reported_capacity(),
    {
        self.capacity
    }

    /// The number of bytes that wait for the rest of their frame.
    pub fn len(&self) -> (len: usize)
        ensures
            len == self@.len(),
    {
        self.backing_buffer.len()
    }

    /// The buffer that the next read appends to.
    pub fn current_buffer(&mut self) -> (buffer: &mut Vec<u8>)
        ensures
            buffer@ == old(self)@,
            final(self)@ == final(buffer)@,
            final(self).reported_capacity() == old(self).reported_capacity(),
    {
        &mut self.backing_buffer
    }

    /// Takes the whole frames out of the buffer, in the order in which they
    /// arrived. The start of a frame that is not there in full stays, at the
    /// head of a buffer whose capacity fits that frame. A malformed frame
    /// gives its error and leaves the buffer as it was.
    pub fn get_requests(&mut self) -> (result: Result<Vec<WholeRequest>, FramingError>)
        ensures
            match parse_stream(old(self)@).error {
                Some(error) => {
                    &&& result == Err::<Vec<WholeRequest>, FramingError>(error)
                    &&& final(self)@ == old(self)@
                    &&& final(self).reported_capacity() == old(self).reported_capacity()
                },
                None => {
                    &&& result matches Ok(requests)
                    &&& all_well_formed(requests@)
                    &&& forall|i: int|
                        0 <= i < requests@.len() ==> (#[trigger] requests@[i]).buffer@ == old(self)@
                    &&& views(requests@) == parse_stream(old(self)@).requests
                    &&& final(self)@ == old(self)@.skip(parse_stream(old(self)@).consumed)
                    &&& final(self).reported_capacity() == capacity_for(final(self)@)
                },
            },
    {
        let ghost all = self.backing_buffer@;
        let mut found: Vec<Found> = Vec::new();
        let mut cursor: usize = 0;
        let mut needed: usize = 0;
        proof {
            assert(all.skip(0) =~= all);
            assert(Seq::new(found@.len(), |i: int| found@[i].request(all)) + parse_stream(
                all,
            ).requests =~= parse_stream(all).requests);
        }
        loop
            invariant_except_break
                needed == 0,
            invariant
                self.backing_buffer@ == all,
                *self == *old(self),
                cursor <= all.len(),
                parse_stream(all).requests == Seq::new(
                    found@.len(),
                    |i: int| found@[i].request(all),
                ) + parse_stream(all.skip(cursor as int)).requests,
                parse_stream(all).consumed == cursor + parse_stream(
                    all.skip(cursor as int),
                ).consumed,
                parse_stream(all).error == parse_stream(all.skip(cursor as int)).error,
                forall|i: int| 0 <= i < found@.len() ==> (#[trigger] found@[i]).within(all.len()),
            ensures
                parse_frame(all.skip(cursor as int)) is Incomplete,
                needed as int == if all.len() - cursor >= MESSAGE_LENGTH_END {
                    u32_at(all.skip(cursor as int), 0)
                } else {
                    0
                },
            decreases all.len() - cursor,
        {
            let ghost rest = all.skip(cursor as int);
            proof {
                lemma_parse_frame_bounds(rest);
            }
            match parse_request(self.backing_buffer.as_slice(), cursor) {
                RequestState::Partial => {
                    if self.backing_buffer.len() - cursor >= MESSAGE_LENGTH_END {
                        needed = read_u32_le(self.backing_buffer.as_slice(), cursor) as usize;
                    }
                    break ;
                },
                RequestState::Malformed(error) => {
                    return Err(error);
                },
                RequestState::Complete { found: frame, next } => {
                    proof {
                        let length = next - cursor;
                        assert(rest.skip(length) =~= all.skip(next as int));
                        let before = Seq::new(found@.len(), |i: int| found@[i].request(all));
                        let after = Seq::new(
                            found@.push(frame).len(),
                            |i: int| found@.push(frame)[i].request(all),
                        );
                        assert(after =~= before + seq![frame.request(all)]);
                        assert(before + (seq![frame.request(all)] + parse_stream(
                            all.skip(next as int),
                        ).requests) =~= after + parse_stream(all.skip(next as int)).requests);
                    }
                    found.push(frame);
                    cursor = next;
                },
            }
        }
        proof {
            let rest = all.skip(cursor as int);
            assert(parse_stream(rest).requests =~= Seq::<Request>::empty());
            assert(parse_stream(all).requests =~= Seq::new(
                found@.len(),
                |i: int| found@[i].request(all),
            ));
        }
        let capacity = grow_capacity(DEFAULT_BUFFER_SIZE, needed);
        if cursor == 0 {
            proof {
                assert(all.skip(0) =~= all);
            }
            let len = self.backing_buffer.len();
            if capacity > len {
                let _ = self.backing_buffer.try_reserve(capacity - len);
            }
            self.capacity = capacity;
            assert(found@.len() == 0) by {
                lemma_parse_stream_bounds(all);
            }
            let requests: Vec<WholeRequest> = Vec::new();
            assert(views(requests@) =~= parse_stream(all).requests);
            return Ok(requests);
        }
        let mut fresh: Vec<u8> = Vec::new();
        let _ = fresh.try_reserve(capacity);
        let len = self.backing_buffer.len();
        fresh.extend_from_slice(slice_subrange(self.backing_buffer.as_slice(), cursor, len));
        assert(fresh@ =~= all.skip(cursor as int));
        std::mem::swap(&mut self.backing_buffer, &mut fresh);
        self.capacity = capacity;
        let shared: SharedBuffer = Rc::new(fresh);
        let mut requests: Vec<WholeRequest> = Vec::new();
        let mut i: usize = 0;
        while i < found.len()
            invariant
                i <= found@.len(),
                shared@ == all,
                requests@.len() == i,
                forall|j: int| 0 <= j < found@.len() ==> (#[trigger] found@[j]).within(all.len()),
                forall|j: int| 0 <= j < i ==> (#[trigger] requests@[j]).well_formed(),
                forall|j: int| 0 <= j < i ==> (#[trigger] requests@[j]).buffer@ == all,
                forall|j: int| 0 <= j < i ==> (#[trigger] requests@[j])@ == found@[j].request(all),
            decreases found@.len() - i,
        {
            let frame = found[i];
            requests.push(frame.into_request(shared.clone()));
            i += 1;
        }
        assert(views(requests@) =~= parse_stream(all).requests);
        Ok(requests)
    }
}

} // verus!
