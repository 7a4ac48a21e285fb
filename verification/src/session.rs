//! The decisions of one connection: what the read side makes of a read,
//! how the first frame opens the session, what each request asks of the
//! backing store, and which response answers it.

use crate::headers::ResponseType;
use crate::requests::{parse_stream, FramingError, Request};
use crate::responses::Response;
use crate::rotating_buffer::{
    all_well_formed, bytes_in, capacity_for, range_within, views, RequestRanges, RotatingBuffer,
    SharedBuffer, WholeRequest, DEFAULT_BUFFER_SIZE,
};
use crate::text::{utf8_error_text, utf8_text};
use crate::writer::{write_error, write_redis_value, ReplyValue, Writer};
use std::ops::Range;
use vstd::prelude::*;
use vstd::seq_lib::{to_multiset_build, to_multiset_remove};
use vstd::std_specs::convert::FromSpecImpl;
use vstd::string::StringExecFns;
use vstd::utf8::{decode_utf8, valid_utf8};

verus! {

/// The callback index of a response that answers no request.
pub const NO_CALLBACK: u32 = u32::MAX;

/// The reason that a socket listener stopped listening on a socket.
#[derive(Debug, PartialEq, Eq)]
pub enum ClosingReason {
    /// The socket was closed. This is the expected way for the listener to
    /// be closed.
    ReadSocketClosed,
    /// The listener met an error it could not handle; this is its text.
    UnhandledError(String),
}

/// The errors met while a client is created.
#[derive(Debug, PartialEq, Eq)]
pub enum ClientCreationError {
    /// An error was returned while the client was created; this is its text.
    UnhandledError(String),
    /// The socket listener was closed before the server address arrived.
    SocketListenerClosed(ClosingReason),
}

/// What the read side hands to the session after a read.
#[derive(Debug)]
pub enum PipeListeningResult {
    Closed(ClosingReason),
    ReceivedValues(Vec<WholeRequest>),
}

/// A closing reason, with its text as plain characters.
pub enum Reason {
    ReadSocketClosed,
    UnhandledError(Seq<char>),
}

/// A client creation error, with its text as plain characters.
pub enum CreationError {
    UnhandledError(Seq<char>),
    SocketListenerClosed(Reason),
}

/// What was listened, with the requests as plain values.
pub enum Listened {
    Closed(Reason),
    ReceivedValues(Seq<Request>),
}

impl View for ClosingReason {
    type V = Reason;

    open spec fn view(&self) -> Reason {
        match self {
            ClosingReason::ReadSocketClosed => Reason::ReadSocketClosed,
            ClosingReason::UnhandledError(text) => Reason::UnhandledError(text@),
        }
    }
}

impl View for ClientCreationError {
    type V = CreationError;

    open spec fn view(&self) -> CreationError {
        match self {
            ClientCreationError::UnhandledError(text) => CreationError::UnhandledError(text@),
            ClientCreationError::SocketListenerClosed(reason) => CreationError::SocketListenerClosed(
                reason@,
            ),
        }
    }
}

impl View for PipeListeningResult {
    type V = Listened;

    open spec fn view(&self) -> Listened {
        match self {
            PipeListeningResult::Closed(reason) => Listened::Closed(reason@),
            PipeListeningResult::ReceivedValues(requests) => Listened::ReceivedValues(
                views(requests@),
            ),
        }
    }
}

impl Clone for ClosingReason {
    fn clone(&self) -> (copy: ClosingReason)
        ensures
            copy@ == self@,
    {
        match self {
            ClosingReason::ReadSocketClosed => ClosingReason::ReadSocketClosed,
            ClosingReason::UnhandledError(text) => ClosingReason::UnhandledError(text.clone()),
        }
    }
}

impl Clone for ClientCreationError {
    fn clone(&self) -> (copy: ClientCreationError)
        ensures
            copy@ == self@,
    {
        match self {
            ClientCreationError::UnhandledError(text) => ClientCreationError::UnhandledError(
                text.clone(),
            ),
            ClientCreationError::SocketListenerClosed(reason) => {
                ClientCreationError::SocketListenerClosed(reason.clone())
            },
        }
    }
}

impl From<ClosingReason> for PipeListeningResult {
    fn from(result: ClosingReason) -> (listened: PipeListeningResult) {
        PipeListeningResult::Closed(result)
    }
}

impl FromSpecImpl<ClosingReason> for PipeListeningResult {
    open spec fn obeys_from_spec() -> bool {
        true
    }

    open spec fn from_spec(result: ClosingReason) -> PipeListeningResult {
        PipeListeningResult::Closed(result)
    }
}

/// An error of the transport closes the listener; it is kept by its text.
impl From<String> for ClosingReason {
    fn from(error: String) -> (reason: ClosingReason) {
        ClosingReason::UnhandledError(error)
    }
}

impl FromSpecImpl<String> for ClosingReason {
    open spec fn obeys_from_spec() -> bool {
        true
    }

    open spec fn from_spec(error: String) -> ClosingReason {
        ClosingReason::UnhandledError(error)
    }
}

impl PipeListeningResult {
    /// Every request lies inside the buffer it shares.
    pub open spec fn well_formed(&self) -> bool {
        match self {
            PipeListeningResult::Closed(_) => true,
            PipeListeningResult::ReceivedValues(requests) => all_well_formed(requests@),
        }
    }
}

/// What the text of a framing error says.
pub open spec fn framing_error_text(error: FramingError) -> Seq<char> {
    match error {
        FramingError::FrameTooShort { .. } => "frame length is smaller than a header"@,
        FramingError::UnknownRequestType { .. } => "unknown request type"@,
        FramingError::KeyLengthMissing { .. } => "frame ends before the key length"@,
        FramingError::KeyTooLong { .. } => "key runs past the end of the frame"@,
    }
}

/// The text of a framing error.
pub fn framing_error_message(error: FramingError) -> (text: String)
    ensures
        text@ == framing_error_text(error),
{
    match error {
        FramingError::FrameTooShort { .. } => "frame length is smaller than a header".to_owned(),
        FramingError::UnknownRequestType { .. } => "unknown request type".to_owned(),
        FramingError::KeyLengthMissing { .. } => "frame ends before the key length".to_owned(),
        FramingError::KeyTooLong { .. } => "key runs past the end of the frame".to_owned(),
    }
}

/// The text of an error of the outside, with what was being done in front
/// of it where that is given.
pub open spec fn prefixed(err_msg: Option<Seq<char>>, error: Seq<char>) -> Seq<char> {
    match err_msg {
        Some(msg) => msg + ": "@ + error,
        None => error,
    }
}

/// Turns the error of a step of client creation into a client creation
/// error that says which step failed. A success passes through.
pub fn to_babushka_result<T>(result: Result<T, String>, err_msg: Option<&str>) -> (converted:
    Result<T, ClientCreationError>)
    ensures
        match result {
            Ok(value) => converted == Ok::<T, ClientCreationError>(value),
            Err(error) => {
                &&& converted matches Err(ClientCreationError::UnhandledError(text))
                &&& text@ == prefixed(
                    match err_msg {
                        Some(msg) => Some(msg@),
                        None => None,
                    },
                    error@,
                )
            },
        },
{
    match result {
        Ok(value) => Ok(value),
        Err(error) => {
            let text = match err_msg {
                Some(msg) => {
                    let mut text = msg.to_owned();
                    text.append(": ");
                    text.append(error.as_str());
                    text
                },
                None => error,
            };
            Err(ClientCreationError::UnhandledError(text))
        },
    }
}

/// What happened on the socket when the read side tried to read.
#[derive(Debug, PartialEq, Eq)]
pub enum ReadOutcome {
    /// This many bytes were appended to the current buffer.
    Read(usize),
    /// The socket had nothing to read after all.
    WouldBlock,
    /// The read was interrupted.
    Interrupted,
    /// Waiting for the socket or reading from it failed; this is the text
    /// of the error.
    Failed(String),
}

/// The read side of one connection.
pub struct UnixStreamListener {
    rotating_buffer: RotatingBuffer,
}

impl View for UnixStreamListener {
    type V = Seq<u8>;

    /// The bytes that arrived and have not left as requests.
    closed spec fn view(&self) -> Seq<u8> {
        self.rotating_buffer@
    }
}

impl UnixStreamListener {
    /// The capacity that the current buffer was made with.
    pub closed spec fn reported_capacity(&self) -> int {
        self.rotating_buffer.reported_capacity()
    }

    /// A read side that has read nothing.
    pub fn new() -> (listener: UnixStreamListener)
        ensures
            listener@ == Seq::<u8>::empty(),
            listener.reported_capacity() == DEFAULT_BUFFER_SIZE,
    {
        UnixStreamListener { rotating_buffer: RotatingBuffer::new() }
    }

    /// The buffer that the next read appends to.
    pub fn current_buffer(&mut self) -> (buffer: &mut Vec<u8>)
        ensures
            buffer@ == old(self)@,
            final(self)@ == final(buffer)@,
            final(self).reported_capacity() == old(self).reported_capacity(),
    {
        self.rotating_buffer.current_buffer()
    }

    /// The capacity that the current buffer was made with.
    pub fn capacity(&self) -> (capacity: usize)
        ensures
            capacity == self.reported_capacity(),
    {
        self.rotating_buffer.capacity()
    }

    /// What a read means for the session. The end of the stream and an
    /// error close the connection; a read that would block or was
    /// interrupted is tried again; bytes that arrived are taken apart into
    /// the requests they complete.
    pub fn next_values(&mut self, read_result: ReadOutcome) -> (listened: Option<
        PipeListeningResult,
    >)
        ensures
            match read_result {
                ReadOutcome::Read(count) => if count == 0 {
                    &&& listened matches Some(result)
                    &&& result@ == Listened::Closed(Reason::ReadSocketClosed)
                    &&& final(self)@ == old(self)@
                } else {
                    match parse_stream(old(self)@).error {
                        Some(error) => {
                            &&& listened matches Some(result)
                            &&& result@ == Listened::Closed(
                                Reason::UnhandledError(framing_error_text(error)),
                            )
                            &&& final(self)@ == old(self)@
                        },
                        None => {
                            &&& listened matches Some(result)
                            &&& result.well_formed()
                            &&& result@ == Listened::ReceivedValues(
                                parse_stream(old(self)@).requests,
                            )
                            &&& final(self)@ == old(self)@.skip(parse_stream(old(self)@).consumed)
                            &&& final(self).reported_capacity() == capacity_for(final(self)@)
                        },
                    }
                },
                ReadOutcome::WouldBlock => listened is None && final(self)@ == old(self)@,
                ReadOutcome::Interrupted => listened is None && final(self)@ == old(self)@,
                ReadOutcome::Failed(error) => {
                    &&& listened matches Some(result)
                    &&& result@ == Listened::Closed(Reason::UnhandledError(error@))
                    &&& final(self)@ == old(self)@
                },
            },
    {
        match read_result {
            ReadOutcome::Read(count) => {
                if count == 0 {
                    return Some(PipeListeningResult::from(ClosingReason::ReadSocketClosed));
                }
                match self.rotating_buffer.get_requests() {
                    Ok(requests) => Some(PipeListeningResult::ReceivedValues(requests)),
                    Err(error) => Some(
                        PipeListeningResult::Closed(
                            ClosingReason::UnhandledError(framing_error_message(error)),
                        ),
                    ),
                }
            },
            ReadOutcome::WouldBlock => None,
            ReadOutcome::Interrupted => None,
            ReadOutcome::Failed(error) => Some(
                PipeListeningResult::from(ClosingReason::from(error)),
            ),
        }
    }
}

/// What the session asks its caller to do.
#[derive(Debug)]
pub enum SessionAction {
    /// Open a connection to the backing server at `address`, and report
    /// how that went together with `callback_index`.
    CreateConnection { address: String, callback_index: u32 },
    /// Start a task that reads the value under the key and reports the
    /// reply with `send_get_request`.
    SendGetRequest { callback_index: u32, buffer: SharedBuffer, key: Range<usize> },
    /// Start a task that stores the value under the key and reports the
    /// outcome with `send_set_request`.
    SendSetRequest {
        callback_index: u32,
        buffer: SharedBuffer,
        key: Range<usize>,
        value: Range<usize>,
    },
    /// Append a null response and flush.
    WriteNull { callback_index: u32 },
    /// Leave `message` for the wrapper, append an error response that
    /// points at it, and flush.
    WriteError { callback_index: u32, response_type: ResponseType, message: String },
    /// Let the tasks started so far run before the next read.
    Yield,
}

/// An action, with its payload as plain values.
pub enum Action {
    CreateConnection { address: Seq<char>, callback_index: u32 },
    SendGetRequest { callback_index: u32, key: Seq<u8> },
    SendSetRequest { callback_index: u32, key: Seq<u8>, value: Seq<u8> },
    WriteNull { callback_index: u32 },
    WriteError { callback_index: u32, response_type: ResponseType, message: Seq<char> },
    Yield,
}

impl View for SessionAction {
    type V = Action;

    open spec fn view(&self) -> Action {
        match self {
            SessionAction::CreateConnection { address, callback_index } => Action::CreateConnection {
                address: address@,
                callback_index: *callback_index,
            },
            SessionAction::SendGetRequest { callback_index, buffer, key } => Action::SendGetRequest {
                callback_index: *callback_index,
                key: buffer@.subrange(key.start as int, key.end as int),
            },
            SessionAction::SendSetRequest {
                callback_index,
                buffer,
                key,
                value,
            } => Action::SendSetRequest {
                callback_index: *callback_index,
                key: buffer@.subrange(key.start as int, key.end as int),
                value: buffer@.subrange(value.start as int, value.end as int),
            },
            SessionAction::WriteNull { callback_index } => Action::WriteNull {
                callback_index: *callback_index,
            },
            SessionAction::WriteError {
                callback_index,
                response_type,
                message,
            } => Action::WriteError {
                callback_index: *callback_index,
                response_type: *response_type,
                message: message@,
            },
            SessionAction::Yield => Action::Yield,
        }
    }
}

impl SessionAction {
    /// The ranges of the action lie inside the buffer it shares.
    pub open spec fn well_formed(&self) -> bool {
        match self {
            SessionAction::SendGetRequest { buffer, key, .. } => range_within(
                *key,
                buffer@.len(),
            ),
            SessionAction::SendSetRequest { buffer, key, value, .. } => range_within(
                *key,
                buffer@.len(),
            ) && range_within(*value, buffer@.len()),
            _ => true,
        }
    }
}

/// What the actions of a vector are, as plain values.
pub open spec fn action_views(actions: Seq<SessionAction>) -> Seq<Action> {
    Seq::new(actions.len(), |i: int| actions[i]@)
}

/// Whether every action of the vector is well formed.
pub open spec fn actions_well_formed(actions: Seq<SessionAction>) -> bool {
    forall|i: int| 0 <= i < actions.len() ==> (#[trigger] actions[i]).well_formed()
}

/// What a request asks for once the session is connected: a read or a
/// write of the backing store, or, for a second server address, an error
/// response to its caller.
pub open spec fn action_for(request: Request) -> Action {
    match request {
        Request::ServerAddress { callback_index, .. } => Action::WriteError {
            callback_index,
            response_type: ResponseType::RequestError,
            message: "server address already received"@,
        },
        Request::GetString { callback_index, key } => Action::SendGetRequest {
            callback_index,
            key,
        },
        Request::SetString { callback_index, key, value } => Action::SendSetRequest {
            callback_index,
            key,
            value,
        },
    }
}

/// The actions for a batch of requests: one for each request, in order,
/// and then a yield.
pub open spec fn actions_for(requests: Seq<Request>) -> Seq<Action> {
    Seq::new(requests.len(), |i: int| action_for(requests[i])).push(Action::Yield)
}

/// Decides what a request asks for once the session is connected.
pub fn handle_request(request: &WholeRequest) -> (action: SessionAction)
    requires
        request.well_formed(),
    ensures
        action.well_formed(),
        action@ == action_for(request@),
{
    match &request.request_type {
        RequestRanges::GetString { key } => SessionAction::SendGetRequest {
            callback_index: request.callback_index,
            buffer: request.buffer.clone(),
            key: key.start..key.end,
        },
        RequestRanges::SetString { key, value } => SessionAction::SendSetRequest {
            callback_index: request.callback_index,
            buffer: request.buffer.clone(),
            key: key.start..key.end,
            value: value.start..value.end,
        },
        RequestRanges::ServerAddress { .. } => SessionAction::WriteError {
            callback_index: request.callback_index,
            response_type: ResponseType::RequestError,
            message: "server address already received".to_owned(),
        },
    }
}

/// Decides what a batch of requests asks for: every request gets its
/// action, in the order of arrival, and the batch ends with a yield so that
/// the tasks it started are not starved.
pub fn handle_requests(received_requests: &Vec<WholeRequest>) -> (actions: Vec<SessionAction>)
    requires
        all_well_formed(received_requests@),
    ensures
        actions_well_formed(actions@),
        action_views(actions@) == actions_for(views(received_requests@)),
{
    let mut actions: Vec<SessionAction> = Vec::new();
    let mut i: usize = 0;
    while i < received_requests.len()
        invariant
            i <= received_requests@.len(),
            all_well_formed(received_requests@),
            actions@.len() == i,
            actions_well_formed(actions@),
            forall|j: int|
                0 <= j < i ==> (#[trigger] actions@[j])@ == action_for(received_requests@[j]@),
        decreases received_requests@.len() - i,
    {
        let action = handle_request(&received_requests[i]);
        actions.push(action);
        i += 1;
    }
    actions.push(SessionAction::Yield);
    assert(action_views(actions@) =~= actions_for(views(received_requests@)));
    actions
}

/// The address that opens a session, and the caller to acknowledge to.
#[derive(Debug, PartialEq, Eq)]
pub struct ServerAddress {
    pub address: String,
    pub callback_index: u32,
}

/// What the address bytes of a bootstrap frame give: their text, or the
/// error of bytes that are not UTF-8.
pub open spec fn parsed_address(address: Seq<u8>) -> Result<Seq<char>, CreationError> {
    if valid_utf8(address) {
        Ok(decode_utf8(address))
    } else {
        Err(
            CreationError::UnhandledError(
                prefixed(Some("Failed to parse address"@), utf8_error_text(address)),
            ),
        )
    }
}

/// Reads the address of the backing server out of the bootstrap request.
pub fn parse_address_create_conn(request: &WholeRequest, address_range: &Range<usize>) -> (address:
    Result<String, ClientCreationError>)
    requires
        range_within(*address_range, request.buffer@.len()),
    ensures
        match parsed_address(
            request.buffer@.subrange(address_range.start as int, address_range.end as int),
        ) {
            Ok(text) => address matches Ok(found) && found@ == text,
            Err(error) => address matches Err(found) && found@ == error,
        },
{
    let address = bytes_in(&request.buffer, address_range);
    to_babushka_result(utf8_text(address), Some("Failed to parse address"))
}

/// The number of requests in front of the first server address.
pub open spec fn before_address(requests: Seq<Request>) -> int
    decreases requests.len(),
{
    if requests.len() == 0 || requests[0] is ServerAddress {
        0
    } else {
        1 + before_address(requests.skip(1))
    }
}

/// The answer to a request that arrives before the address of the backing
/// server: a request error to its caller.
pub open spec fn refusal(request: Request) -> Action {
    Action::WriteError {
        callback_index: request.callback_index(),
        response_type: ResponseType::RequestError,
        message: "Received another request before receiving server address"@,
    }
}

/// The answers to the first `count` requests, none of which is accepted.
pub open spec fn refusals(requests: Seq<Request>, count: int) -> Seq<Action> {
    Seq::new(count as nat, |i: int| refusal(requests[i]))
}

/// What a read leads to while the address of the backing server is awaited.
pub struct Bootstrap {
    /// The answers to the requests that came in front of the address.
    pub refused: Seq<Action>,
    /// Nothing yet, or the address to connect to and the caller to
    /// acknowledge to, or the error that ends the session.
    pub outcome: Result<Option<(Seq<char>, u32)>, CreationError>,
}

/// What a read leads to while the address of the backing server is
/// awaited. Every request in front of the first server address is refused.
/// The first server address is read as text; what follows it in the same
/// read is not looked at.
pub open spec fn bootstrap(listened: Listened) -> Bootstrap {
    match listened {
        Listened::Closed(reason) => Bootstrap {
            refused: Seq::empty(),
            outcome: Err(CreationError::SocketListenerClosed(reason)),
        },
        Listened::ReceivedValues(requests) => {
            let count = before_address(requests);
            Bootstrap {
                refused: refusals(requests, count),
                outcome: if count < requests.len() {
                    match requests[count] {
                        Request::ServerAddress { callback_index, address } => match parsed_address(
                            address,
                        ) {
                            Ok(text) => Ok(Some((text, callback_index))),
                            Err(error) => Err(error),
                        },
                        _ => Ok(None),
                    }
                } else {
                    Ok(None)
                },
            }
        },
    }
}

/// The requests in front of the first server address are no server
/// addresses, and the count of them stops at the first server address or at
/// the end.
pub proof fn lemma_before_address(requests: Seq<Request>, i: int)
    requires
        0 <= i <= requests.len(),
        forall|j: int| 0 <= j < i ==> !(#[trigger] requests[j] is ServerAddress),
    ensures
        before_address(requests) == i + before_address(requests.skip(i)),
        i < requests.len() && requests[i] is ServerAddress ==> before_address(requests) == i,
        i == requests.len() ==> before_address(requests) == i,
    decreases i,
{
    let rest = requests.skip(i);
    if i == 0 {
        assert(rest =~= requests);
    } else {
        lemma_before_address(requests, i - 1);
        let longer = requests.skip(i - 1);
        assert(longer.skip(1) =~= rest);
        assert(longer.len() > 0 && longer[0] == requests[i - 1]);
        assert(before_address(longer) == 1 + before_address(rest));
    }
    if i < requests.len() {
        assert(rest.len() > 0 && rest[0] == requests[i]);
        if requests[i] is ServerAddress {
            assert(before_address(rest) == 0);
        }
    } else {
        assert(rest.len() == 0);
        assert(before_address(rest) == 0);
    }
}

/// Decides what a read leads to while the address of the backing server is
/// awaited: the refusals of the requests that came in front of the address,
/// and what the address, if there is one, leads to.
pub fn wait_for_server_address_create_conn(listened: PipeListeningResult) -> (step: (
    Vec<SessionAction>,
    Result<Option<ServerAddress>, ClientCreationError>,
))
    requires
        listened.well_formed(),
    ensures
        action_views(step.0@) == bootstrap(listened@).refused,
        actions_well_formed(step.0@),
        match bootstrap(listened@).outcome {
            Ok(None) => step.1 matches Ok(None),
            Ok(Some((address, callback_index))) => {
                &&& step.1 matches Ok(Some(found))
                &&& found.address@ == address
                &&& found.callback_index == callback_index
            },
            Err(error) => step.1 matches Err(found) && found@ == error,
        },
{
    let mut refused: Vec<SessionAction> = Vec::new();
    let ghost whole = listened@;
    match listened {
        PipeListeningResult::Closed(reason) => {
            assert(action_views(refused@) =~= Seq::<Action>::empty());
            (refused, Err(ClientCreationError::SocketListenerClosed(reason)))
        },
        PipeListeningResult::ReceivedValues(received_requests) => {
            let ghost requests = views(received_requests@);
            let mut i: usize = 0;
            assert(action_views(refused@) =~= refusals(requests, 0));
            while i < received_requests.len()
                invariant
                    i <= received_requests@.len(),
                    requests == views(received_requests@),
                    whole == Listened::ReceivedValues(requests),
                    listened@ == whole,
                    all_well_formed(received_requests@),
                    forall|j: int| 0 <= j < i ==> !(#[trigger] requests[j] is ServerAddress),
                    action_views(refused@) == refusals(requests, i as int),
                    actions_well_formed(refused@),
                decreases received_requests@.len() - i,
            {
                let request = &received_requests[i];
                assert(request.well_formed());
                assert(requests[i as int] == request@);
                match &request.request_type {
                    RequestRanges::ServerAddress { address } => {
                        proof {
                            lemma_before_address(requests, i as int);
                        }
                        let outcome = match parse_address_create_conn(request, address) {
                            Ok(text) => Ok(
                                Some(
                                    ServerAddress {
                                        address: text,
                                        callback_index: request.callback_index,
                                    },
                                ),
                            ),
                            Err(error) => Err(error),
                        };
                        return (refused, outcome);
                    },
                    _ => {
                        let ghost before = action_views(refused@);
                        let refusing = SessionAction::WriteError {
                            callback_index: request.callback_index,
                            response_type: ResponseType::RequestError,
                            message: "Received another request before receiving server address".to_owned(),
                        };
                        assert(refusing@ == refusal(requests[i as int]));
                        refused.push(refusing);
                        assert(action_views(refused@) =~= before.push(refusal(requests[i as int])));
                        assert(before.push(refusal(requests[i as int])) =~= refusals(
                            requests,
                            i + 1,
                        ));
                    },
                }
                i += 1;
            }
            proof {
                lemma_before_address(requests, i as int);
            }
            (refused, Ok(None))
        },
    }
}

/// Where a session stands.
#[derive(Debug, PartialEq, Eq)]
pub enum SessionState {
    /// Nothing but the address of the backing server is accepted.
    AwaitingAddress,
    /// Requests are dispatched to the backing server.
    Connected,
    /// The session is over, for this reason.
    Closed(ClosingReason),
}

/// What happened since the session last said what to do.
#[derive(Debug)]
pub enum SessionEvent {
    /// The read side produced this.
    Listened(PipeListeningResult),
    /// The connection to the backing server is open; `callback_index` is
    /// that of the address request.
    ConnectionCreated { callback_index: u32 },
    /// The connection to the backing server could not be opened.
    ConnectionFailed(ClientCreationError),
    /// The writer reported that the transport failed.
    WriterClosed(ClosingReason),
}

/// A session state, with its text as plain characters.
pub enum State {
    AwaitingAddress,
    Connected,
    Closed(Reason),
}

/// A session event, as plain values.
pub enum Event {
    Listened(Listened),
    ConnectionCreated { callback_index: u32 },
    ConnectionFailed(CreationError),
    WriterClosed(Reason),
}

impl View for SessionState {
    type V = State;

    open spec fn view(&self) -> State {
        match self {
            SessionState::AwaitingAddress => State::AwaitingAddress,
            SessionState::Connected => State::Connected,
            SessionState::Closed(reason) => State::Closed(reason@),
        }
    }
}

impl View for SessionEvent {
    type V = Event;

    open spec fn view(&self) -> Event {
        match self {
            SessionEvent::Listened(listened) => Event::Listened(listened@),
            SessionEvent::ConnectionCreated { callback_index } => Event::ConnectionCreated {
                callback_index: *callback_index,
            },
            SessionEvent::ConnectionFailed(error) => Event::ConnectionFailed(error@),
            SessionEvent::WriterClosed(reason) => Event::WriterClosed(reason@),
        }
    }
}

impl SessionEvent {
    /// Every request of the event lies inside the buffer it shares.
    pub open spec fn well_formed(&self) -> bool {
        match self {
            SessionEvent::Listened(listened) => listened.well_formed(),
            _ => true,
        }
    }
}

/// How a closing reason is named in the text of an error.
pub open spec fn reason_text(reason: Reason) -> Seq<char> {
    match reason {
        Reason::ReadSocketClosed => "ReadSocketClosed"@,
        Reason::UnhandledError(text) => "UnhandledError("@ + text + ")"@,
    }
}

/// The text that tells the wrapper why no client was created.
pub open spec fn closing_text(error: CreationError) -> Seq<char> {
    match error {
        CreationError::UnhandledError(text) => text,
        CreationError::SocketListenerClosed(reason) => "Socket listener closed due to "@
            + reason_text(reason),
    }
}

/// The reason for which a session is closed when no client was created.
pub open spec fn closing_reason(error: CreationError) -> Reason {
    match error {
        CreationError::UnhandledError(text) => Reason::UnhandledError(text),
        CreationError::SocketListenerClosed(reason) => reason,
    }
}

/// The closing error that goes to the wrapper when a session ends in an
/// error: it answers no request.
pub open spec fn closing_error(message: Seq<char>) -> Action {
    Action::WriteError {
        callback_index: NO_CALLBACK,
        response_type: ResponseType::ClosingError,
        message,
    }
}

/// The session of one connection as a machine: the state that follows a
/// state and an event, and what the caller has to do on the way.
///
/// Before the backing server is connected only its address is accepted:
/// any other request gets a request error and the session goes on waiting.
/// An address that is no text, a connection that cannot be opened and the
/// end of reading end the session with a closing error. Once connected,
/// every batch of requests is dispatched; the end of the stream ends the
/// session quietly, an error ends it with a closing error. A closed session
/// stays closed and asks for nothing.
pub open spec fn session_step(state: State, event: Event) -> (State, Seq<Action>) {
    match state {
        State::Closed(_) => (state, Seq::empty()),
        State::AwaitingAddress => match event {
            Event::Listened(listened) => match bootstrap(listened).outcome {
                Ok(None) => (State::AwaitingAddress, bootstrap(listened).refused),
                Ok(Some((address, callback_index))) => (
                    State::AwaitingAddress,
                    bootstrap(listened).refused.push(
                        Action::CreateConnection { address, callback_index },
                    ),
                ),
                Err(error) => (
                    State::Closed(closing_reason(error)),
                    bootstrap(listened).refused.push(closing_error(closing_text(error))),
                ),
            },
            Event::ConnectionCreated { callback_index } => (
                State::Connected,
                seq![Action::WriteNull { callback_index }],
            ),
            Event::ConnectionFailed(error) => (
                State::Closed(closing_reason(error)),
                Seq::<Action>::empty().push(closing_error(closing_text(error))),
            ),
            Event::WriterClosed(reason) => (State::Closed(reason), Seq::empty()),
        },
        State::Connected => match event {
            Event::Listened(Listened::Closed(reason)) => (
                State::Closed(reason),
                match reason {
                    Reason::ReadSocketClosed => Seq::empty(),
                    Reason::UnhandledError(text) => seq![closing_error(text)],
                },
            ),
            Event::Listened(Listened::ReceivedValues(requests)) => (
                State::Connected,
                actions_for(requests),
            ),
            Event::ConnectionCreated { .. } => (State::Connected, Seq::empty()),
            Event::ConnectionFailed(_) => (State::Connected, Seq::empty()),
            Event::WriterClosed(reason) => (State::Closed(reason), Seq::empty()),
        },
    }
}

/// A closed session is over: whatever happens, it stays closed for the
/// same reason and asks for nothing.
pub proof fn closed_is_terminal(reason: Reason, event: Event)
    ensures
        session_step(State::Closed(reason), event) == (
            State::Closed(reason),
            Seq::<Action>::empty(),
        ),
{
}

/// Before the address of the backing server has arrived, requests that
/// are no server address do not open or end the session: each gets a
/// request error, and the session goes on waiting.
pub proof fn only_address_opens_session(requests: Seq<Request>)
    requires
        forall|i: int| 0 <= i < requests.len() ==> !(#[trigger] requests[i] is ServerAddress),
    ensures
        session_step(State::AwaitingAddress, Event::Listened(Listened::ReceivedValues(requests)))
            == (State::AwaitingAddress, refusals(requests, requests.len() as int)),
{
    lemma_before_address(requests, requests.len() as int);
}

/// How a closing reason is named in the text of an error.
pub fn describe_reason(reason: &ClosingReason) -> (text: String)
    ensures
        text@ == reason_text(reason@),
{
    match reason {
        ClosingReason::ReadSocketClosed => "ReadSocketClosed".to_owned(),
        ClosingReason::UnhandledError(error) => {
            let mut text = "UnhandledError(".to_owned();
            text.append(error.as_str());
            text.append(")");
            text
        },
    }
}

/// Ends a session in which no client was created: the reason for which it
/// is closed, and, behind the actions decided so far, the closing error
/// that tells the wrapper.
fn fail_bootstrap(error: ClientCreationError, actions: Vec<SessionAction>) -> (next: (
    SessionState,
    Vec<SessionAction>,
))
    requires
        actions_well_formed(actions@),
    ensures
        next.0@ == State::Closed(closing_reason(error@)),
        action_views(next.1@) == action_views(actions@).push(
            closing_error(closing_text(error@)),
        ),
        actions_well_formed(next.1@),
{
    let (reason, message) = match error {
        ClientCreationError::UnhandledError(text) => {
            let message = text.clone();
            (ClosingReason::UnhandledError(text), message)
        },
        ClientCreationError::SocketListenerClosed(reason) => {
            let mut message = "Socket listener closed due to ".to_owned();
            let described = describe_reason(&reason);
            message.append(described.as_str());
            (reason, message)
        },
    };
    let mut actions = actions;
    let ghost before = action_views(actions@);
    actions.push(
        SessionAction::WriteError {
            callback_index: NO_CALLBACK,
            response_type: ResponseType::ClosingError,
            message,
        },
    );
    assert(action_views(actions@) =~= before.push(closing_error(closing_text(error@))));
    (SessionState::Closed(reason), actions)
}

/// What a connected session makes of a read: the actions for the requests
/// that arrived, or the reason for which reading ended.
pub fn read_values_loop(listened: PipeListeningResult) -> (step: Result<
    Vec<SessionAction>,
    ClosingReason,
>)
    requires
        listened.well_formed(),
    ensures
        match listened@ {
            Listened::Closed(reason) => step matches Err(found) && found@ == reason,
            Listened::ReceivedValues(requests) => {
                &&& step matches Ok(actions)
                &&& actions_well_formed(actions@)
                &&& action_views(actions@) == actions_for(requests)
            },
        },
{
    match listened {
        PipeListeningResult::Closed(reason) => Err(reason),
        PipeListeningResult::ReceivedValues(received_requests) => Ok(
            handle_requests(&received_requests),
        ),
    }
}

/// Runs the session of one connection by one step: from the state and what
/// happened to the next state and what to do, as `session_step` says.
pub fn listen_on_client_stream(state: SessionState, event: SessionEvent) -> (next: (
    SessionState,
    Vec<SessionAction>,
))
    requires
        event.well_formed(),
    ensures
        (next.0@, action_views(next.1@)) == session_step(state@, event@),
        actions_well_formed(next.1@),
{
    let mut actions: Vec<SessionAction> = Vec::new();
    assert(action_views(actions@) =~= Seq::<Action>::empty());
    match state {
        SessionState::Closed(reason) => (SessionState::Closed(reason), actions),
        SessionState::AwaitingAddress => match event {
            SessionEvent::Listened(listened) => {
                let (mut refused, outcome) = wait_for_server_address_create_conn(listened);
                match outcome {
                    Ok(None) => (SessionState::AwaitingAddress, refused),
                    Ok(Some(found)) => {
                        let ghost before = action_views(refused@);
                        let ghost wanted = Action::CreateConnection {
                            address: found.address@,
                            callback_index: found.callback_index,
                        };
                        refused.push(
                            SessionAction::CreateConnection {
                                address: found.address,
                                callback_index: found.callback_index,
                            },
                        );
                        assert(action_views(refused@) =~= before.push(wanted));
                        (SessionState::AwaitingAddress, refused)
                    },
                    Err(error) => fail_bootstrap(error, refused),
                }
            },
            SessionEvent::ConnectionCreated { callback_index } => {
                actions.push(SessionAction::WriteNull { callback_index });
                assert(action_views(actions@) =~= seq![Action::WriteNull { callback_index }]);
                (SessionState::Connected, actions)
            },
            SessionEvent::ConnectionFailed(error) => fail_bootstrap(error, actions),
            SessionEvent::WriterClosed(reason) => (SessionState::Closed(reason), actions),
        },
        SessionState::Connected => match event {
            SessionEvent::Listened(listened) => match read_values_loop(listened) {
                Ok(dispatched) => (SessionState::Connected, dispatched),
                Err(reason) => {
                    match &reason {
                        ClosingReason::ReadSocketClosed => {},
                        ClosingReason::UnhandledError(text) => {
                            actions.push(
                                SessionAction::WriteError {
                                    callback_index: NO_CALLBACK,
                                    response_type: ResponseType::ClosingError,
                                    message: text.clone(),
                                },
                            );
                            assert(action_views(actions@) =~= seq![closing_error(text@)]);
                        },
                    }
                    (SessionState::Closed(reason), actions)
                },
            },
            SessionEvent::ConnectionCreated { .. } => (SessionState::Connected, actions),
            SessionEvent::ConnectionFailed(_) => (SessionState::Connected, actions),
            SessionEvent::WriterClosed(reason) => (SessionState::Closed(reason), actions),
        },
    }
}

/// How a request that was dispatched came back.
pub enum Completion {
    /// The backing store answered a read with a reply, or with an error
    /// whose text lies at the address.
    Got(Result<ReplyValue, u64>),
    /// The backing store stored the value, or answered with an error whose
    /// text lies at the address.
    Stored(Result<(), u64>),
    /// The request was refused; the text of the error lies at the address.
    Refused(u64),
    /// The request was the address of the backing server, and the
    /// connection is open.
    Connected,
}

/// The response that tells the caller `callback_index` how its request
/// came back.
pub open spec fn response_to(callback_index: u32, completion: Completion) -> Response {
    match completion {
        Completion::Got(Ok(value)) => value.response(callback_index),
        Completion::Got(Err(pointer)) => Response::RequestError { callback_index, pointer },
        Completion::Stored(Ok(_)) => Response::Null { callback_index },
        Completion::Stored(Err(pointer)) => Response::RequestError { callback_index, pointer },
        Completion::Refused(pointer) => Response::RequestError { callback_index, pointer },
        Completion::Connected => Response::Null { callback_index },
    }
}

/// Appends the response to a read of the backing store: the reply, or a
/// request error that points at the text of the error.
pub fn send_get_request(result: Result<ReplyValue, u64>, callback_index: u32, writer: &mut Writer)
    requires
        old(writer).well_formed(),
    ensures
        final(writer).well_formed(),
        final(writer).frames() == old(writer).frames().push(
            response_to(callback_index, Completion::Got(result)),
        ),
        final(writer)@ == old(writer)@.enqueued(
            response_to(callback_index, Completion::Got(result)).encode(),
        ),
{
    match result {
        Ok(value) => write_redis_value(value, callback_index, writer),
        Err(error_pointer) => write_error(
            error_pointer,
            callback_index,
            writer,
            ResponseType::RequestError,
        ),
    }
}

/// Appends the response to a write of the backing store: a null response,
/// or a request error that points at the text of the error.
pub fn send_set_request(result: Result<(), u64>, callback_index: u32, writer: &mut Writer)
    requires
        old(writer).well_formed(),
    ensures
        final(writer).well_formed(),
        final(writer).frames() == old(writer).frames().push(
            response_to(callback_index, Completion::Stored(result)),
        ),
        final(writer)@ == old(writer)@.enqueued(
            response_to(callback_index, Completion::Stored(result)).encode(),
        ),
{
    match result {
        Ok(_) => write_redis_value(ReplyValue::Nil, callback_index, writer),
        Err(error_pointer) => write_error(
            error_pointer,
            callback_index,
            writer,
            ResponseType::RequestError,
        ),
    }
}

/// The callback indices of a sequence of requests, in order.
pub open spec fn request_callbacks(requests: Seq<Request>) -> Seq<u32> {
    Seq::new(requests.len(), |i: int| requests[i].callback_index())
}

/// The callback indices of a sequence of responses, in order.
pub open spec fn response_callbacks(responses: Seq<Response>) -> Seq<u32> {
    Seq::new(responses.len(), |i: int| responses[i].callback_index())
}

/// The responses to the requests that came back. `completed` names them
/// by their place among `requests`, in the order in which they came back,
/// and `completions` says how each of them came back.
pub open spec fn replies(
    requests: Seq<Request>,
    completed: Seq<int>,
    completions: Seq<Completion>,
) -> Seq<Response> {
    Seq::new(
        completed.len(),
        |i: int| response_to(requests[completed[i]].callback_index(), completions[i]),
    )
}

/// Values picked from a sequence at places that are all different occur
/// among the picks at most as often as in the sequence.
proof fn lemma_picks_are_sub_multiset(values: Seq<u32>, places: Seq<int>)
    requires
        places.no_duplicates(),
        forall|i: int| 0 <= i < places.len() ==> 0 <= #[trigger] places[i] < values.len(),
    ensures
        Seq::new(places.len(), |i: int| values[places[i]]).to_multiset().subset_of(
            values.to_multiset(),
        ),
    decreases values.len(),
{
    let picks = Seq::new(places.len(), |i: int| values[places[i]]);
    if places.len() == 0 {
        picks.to_multiset_ensures();
        assert(picks.to_multiset().len() == 0);
        assert forall|v: u32| picks.to_multiset().count(v) == 0 by {
            if picks.to_multiset().count(v) > 0 {
                assert(picks.contains(v));
            }
        }
    } else {
        assert(0 <= places[0] < values.len());
        let last = values.len() - 1;
        let shorter = values.drop_last();
        assert(values =~= shorter.push(values[last]));
        to_multiset_build(shorter, values[last]);
        if exists|p: int| 0 <= p < places.len() && places[p] == last {
            let p = choose|p: int| 0 <= p < places.len() && places[p] == last;
            let fewer = places.remove(p);
            assert forall|i: int| 0 <= i < fewer.len() implies 0 <= #[trigger] fewer[i]
                < shorter.len() by {
                if i < p {
                    assert(fewer[i] == places[i]);
                } else {
                    assert(fewer[i] == places[i + 1]);
                }
            }
            assert(fewer.no_duplicates()) by {
                assert forall|i: int, j: int|
                    0 <= i < fewer.len() && 0 <= j < fewer.len() && i != j implies fewer[i]
                    != fewer[j] by {
                    let a = if i < p {
                        i
                    } else {
                        i + 1
                    };
                    let b = if j < p {
                        j
                    } else {
                        j + 1
                    };
                    assert(fewer[i] == places[a] && fewer[j] == places[b]);
                }
            }
            lemma_picks_are_sub_multiset(shorter, fewer);
            let fewer_picks = Seq::new(fewer.len(), |i: int| shorter[fewer[i]]);
            assert(fewer_picks =~= picks.remove(p));
            to_multiset_remove(picks, p);
            picks.to_multiset_ensures();
            assert(picks.contains(picks[p]));
            assert forall|v: u32|
                picks.to_multiset().count(v) <= values.to_multiset().count(v) by {
                assert(fewer_picks.to_multiset().count(v) <= shorter.to_multiset().count(v));
            }
        } else {
            assert forall|i: int| 0 <= i < places.len() implies 0 <= #[trigger] places[i]
                < shorter.len() by {}
            lemma_picks_are_sub_multiset(shorter, places);
            assert(picks =~= Seq::new(places.len(), |i: int| shorter[places[i]]));
            assert forall|v: u32|
                picks.to_multiset().count(v) <= values.to_multiset().count(v) by {
                assert(picks.to_multiset().count(v) <= shorter.to_multiset().count(v));
            }
        }
    }
}

/// However the requests that were dispatched come
/// back, and in whatever order, every response to one of them carries the
/// callback index of a request, and no callback index occurs among the
/// responses more often than among the requests.
pub proof fn callback_correlation(
    requests: Seq<Request>,
    completed: Seq<int>,
    completions: Seq<Completion>,
)
    requires
        completed.no_duplicates(),
        forall|i: int| 0 <= i < completed.len() ==> 0 <= #[trigger] completed[i] < requests.len(),
        completions.len() == completed.len(),
    ensures
        forall|i: int|
            0 <= i < completed.len() ==> request_callbacks(requests).contains(
                #[trigger] response_callbacks(replies(requests, completed, completions))[i],
            ),
        response_callbacks(replies(requests, completed, completions)).to_multiset().subset_of(
            request_callbacks(requests).to_multiset(),
        ),
{
    let wanted = request_callbacks(requests);
    let answered = response_callbacks(replies(requests, completed, completions));
    let picks = Seq::new(completed.len(), |i: int| wanted[completed[i]]);
    assert(answered =~= picks);
    lemma_picks_are_sub_multiset(wanted, completed);
    assert forall|i: int| 0 <= i < completed.len() implies wanted.contains(
        #[trigger] answered[i],
    ) by {
        assert(wanted[completed[i]] == answered[i]);
    }
}

/// A response to a request that was dispatched goes to the caller of that
/// request: the action that a request leads to and the response to its
/// completion carry the callback index of the request.
pub proof fn response_goes_to_the_caller(request: Request, completion: Completion)
    ensures
        response_to(request.callback_index(), completion).callback_index()
            == request.callback_index(),
        match action_for(request) {
            Action::SendGetRequest { callback_index, .. } => callback_index
                == request.callback_index(),
            Action::SendSetRequest { callback_index, .. } => callback_index
                == request.callback_index(),
            Action::WriteError { callback_index, .. } => callback_index
                == request.callback_index(),
            _ => false,
        },
{
}

/// The caller that an action concerns: none for a yield and for a closing
/// error, which answers no request.
pub open spec fn action_callback(action: Action) -> Option<u32> {
    match action {
        Action::CreateConnection { callback_index, .. } => Some(callback_index),
        Action::SendGetRequest { callback_index, .. } => Some(callback_index),
        Action::SendSetRequest { callback_index, .. } => Some(callback_index),
        Action::WriteNull { callback_index } => Some(callback_index),
        Action::WriteError { callback_index, response_type, .. } => if response_type
            is ClosingError {
            None
        } else {
            Some(callback_index)
        },
        Action::Yield => None,
    }
}

/// The count of requests in front of the first server address is a place
/// among the requests or their end, no request in front of it is a server
/// address, and the request at it is one.
pub proof fn lemma_before_address_bounds(requests: Seq<Request>)
    ensures
        0 <= before_address(requests) <= requests.len(),
        forall|j: int|
            0 <= j < before_address(requests) ==> !(#[trigger] requests[j] is ServerAddress),
        before_address(requests) < requests.len() ==> requests[before_address(
            requests,
        )] is ServerAddress,
    decreases requests.len(),
{
    if requests.len() > 0 && !(requests[0] is ServerAddress) {
        let rest = requests.skip(1);
        lemma_before_address_bounds(rest);
        assert forall|j: int| 0 <= j < before_address(requests) implies !(
        #[trigger] requests[j] is ServerAddress) by {
            if j > 0 {
                assert(rest[j - 1] == requests[j]);
            }
        }
        if before_address(requests) < requests.len() {
            assert(rest[before_address(rest)] == requests[before_address(requests)]);
        }
    }
}

/// Whatever state a session is in, the actions that a read leads to follow
/// the requests of the read one for one: the action at a place, unless it
/// is a yield or a closing error, concerns the caller of the request at
/// that place. So no caller is answered that did not ask, and none more
/// often than it asked.
pub proof fn actions_follow_requests(state: State, requests: Seq<Request>)
    ensures
        ({
            let actions = session_step(
                state,
                Event::Listened(Listened::ReceivedValues(requests)),
            ).1;
            forall|i: int|
                0 <= i < actions.len() ==> match action_callback(#[trigger] actions[i]) {
                    Some(callback_index) => i < requests.len() && callback_index
                        == requests[i].callback_index(),
                    None => true,
                }
        }),
{
    lemma_before_address_bounds(requests);
    let listened = Listened::ReceivedValues(requests);
    let actions = session_step(state, Event::Listened(listened)).1;
    let count = before_address(requests);
    assert forall|i: int| 0 <= i < actions.len() implies match action_callback(
        #[trigger] actions[i],
    ) {
        Some(callback_index) => i < requests.len() && callback_index
            == requests[i].callback_index(),
        None => true,
    } by {
        match state {
            State::Closed(_) => {},
            State::Connected => {
                if i < requests.len() {
                    assert(actions[i] == action_for(requests[i]));
                }
            },
            State::AwaitingAddress => {
                if i < count {
                    assert(actions[i] == refusal(requests[i]));
                }
            },
        }
    }
}

} // verus!
