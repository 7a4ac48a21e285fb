//! The decisions of the socket listener: where the socket lies, what the
//! outcome of binding means, which signals end the accept loop, and whether
//! the socket file is removed when the listener goes away.

pub use crate::session::{ClientCreationError, ClosingReason};

use crate::errors::{FFIError, HostError};
use crate::text::{decimal_string, decimal_text};
use vstd::prelude::*;
use vstd::string::{StrSliceExecFns, StringExecFns};

verus! {

/// The socket file name.
pub const SOCKET_FILE_NAME: &'static str = "babushka-socket";

/// The path of the socket of the process `process_id` in the directory
/// `temp_dir`. A directory that ends in a separator gets no second one.
pub open spec fn socket_path_text(temp_dir: Seq<char>, process_id: u32) -> Seq<char> {
    let name = SOCKET_FILE_NAME@ + "-"@ + decimal_text(process_id as nat);
    if temp_dir.len() > 0 && temp_dir.last() == '/' {
        temp_dir + name
    } else {
        temp_dir + "/"@ + name
    }
}

/// Get the socket path as a string.
pub fn get_socket_path(temp_dir: &str, process_id: u32) -> (socket_path: String)
    ensures
        socket_path@ == socket_path_text(temp_dir@, process_id),
{
    let mut socket_path = temp_dir.to_owned();
    let length = temp_dir.unicode_len();
    if length == 0 || temp_dir.get_char(length - 1) != '/' {
        socket_path.append("/");
    }
    socket_path.append(SOCKET_FILE_NAME);
    socket_path.append("-");
    let number = decimal_string(process_id as u64);
    socket_path.append(number.as_str());
    assert(socket_path@ =~= socket_path_text(temp_dir@, process_id));
    socket_path
}

/// How binding the socket went.
#[derive(Debug, PartialEq, Eq)]
pub enum BindOutcome {
    /// The socket is bound and listening.
    Bound,
    /// The address is in use: another instance listens on the same path.
    AddrInUse,
    /// Binding failed for another reason; this is the text of the error.
    Failed(String),
}

/// How binding went, with its text as plain characters.
pub enum Bind {
    Bound,
    AddrInUse,
    Failed(Seq<char>),
}

impl View for BindOutcome {
    type V = Bind;

    open spec fn view(&self) -> Bind {
        match self {
            BindOutcome::Bound => Bind::Bound,
            BindOutcome::AddrInUse => Bind::AddrInUse,
            BindOutcome::Failed(text) => Bind::Failed(text@),
        }
    }
}

/// What the listener does once binding has been tried.
#[derive(Debug, PartialEq, Eq)]
pub struct ListenStart {
    /// What the caller that asked for the listener is told: the path of the
    /// socket, or the text of the error.
    pub init_result: Result<String, String>,
    /// Whether the accept loop runs.
    pub accept: bool,
}

/// A socket listener, as plain values.
pub struct Listener {
    pub socket_path: Seq<char>,
    pub cleanup_socket: bool,
}

impl Listener {
    /// The listener before it has tried to bind: it means to clean up.
    pub open spec fn fresh(socket_path: Seq<char>) -> Listener {
        Listener { socket_path, cleanup_socket: true }
    }

    /// The listener after binding went as `bound` says. A socket that
    /// another instance is bound to is not this listener's to remove.
    pub open spec fn bind(self, bound: Bind) -> Listener {
        Listener {
            socket_path: self.socket_path,
            cleanup_socket: self.cleanup_socket && !(bound is AddrInUse),
        }
    }

    /// What the caller that asked for the listener is told.
    pub open spec fn init_result(self, bound: Bind) -> Result<Seq<char>, Seq<char>> {
        match bound {
            Bind::Bound => Ok(self.socket_path),
            Bind::AddrInUse => Ok(self.socket_path),
            Bind::Failed(text) => Err(text),
        }
    }

    /// The file that is removed when the listener goes away, if any.
    pub open spec fn unlinks(self) -> Option<Seq<char>> {
        if self.cleanup_socket {
            Some(self.socket_path)
        } else {
            None
        }
    }
}

/// All that is needed to bind to a socket and to clean it up.
#[derive(Debug)]
pub struct SocketListener {
    socket_path: String,
    cleanup_socket: bool,
}

impl View for SocketListener {
    type V = Listener;

    closed spec fn view(&self) -> Listener {
        Listener { socket_path: self.socket_path@, cleanup_socket: self.cleanup_socket }
    }
}

impl SocketListener {
    /// A listener for the socket at `socket_path`.
    pub fn new(socket_path: String) -> (listener: SocketListener)
        ensures
            listener@ == Listener::fresh(socket_path@),
    {
        SocketListener { socket_path, cleanup_socket: true }
    }

    /// The path of the socket.
    pub fn socket_path(&self) -> (socket_path: &String)
        ensures
            socket_path@ == self@.socket_path,
    {
        &self.socket_path
    }

    /// Whether the socket file is removed when the listener goes away.
    pub fn cleanup_socket(&self) -> (cleanup_socket: bool)
        ensures
            cleanup_socket == self@.cleanup_socket,
    {
        self.cleanup_socket
    }

    /// Decides what follows the attempt to bind. A bound socket is reported
    /// and accepted on. An address in use means that another instance serves
    /// the path: the path is reported all the same, nothing is accepted, and
    /// the socket file is no longer this listener's to remove. Any other
    /// error is reported and nothing is accepted.
    pub fn listen_on_socket(&mut self, bound: BindOutcome) -> (start: ListenStart)
        ensures
            final(self)@ == old(self)@.bind(bound@),
            start.accept == (bound is Bound),
            match old(self)@.init_result(bound@) {
                Ok(path) => start.init_result matches Ok(told) && told@ == path,
                Err(text) => start.init_result matches Err(told) && told@ == text,
            },
    {
        match bound {
            BindOutcome::Bound => ListenStart {
                init_result: Ok(self.socket_path.clone()),
                accept: true,
            },
            BindOutcome::AddrInUse => {
                self.cleanup_socket = false;
                ListenStart { init_result: Ok(self.socket_path.clone()), accept: false }
            },
            BindOutcome::Failed(text) => ListenStart { init_result: Err(text), accept: false },
        }
    }

    /// Ends the listener. Gives the path of the socket file to remove, or
    /// nothing where the file is not this listener's to remove.
    pub fn dispose(self) -> (socket_path: Option<String>)
        ensures
            match self@.unlinks() {
                Some(path) => socket_path matches Some(found) && found@ == path,
                None => socket_path is None,
            },
    {
        if self.cleanup_socket {
            Some(self.socket_path)
        } else {
            None
        }
    }
}

/// A listener that bound its socket removes the socket file when
/// it goes away; a listener that found the address in use leaves the file
/// alone, for it belongs to another instance.
pub proof fn cleanup_follows_binding(socket_path: Seq<char>)
    ensures
        Listener::fresh(socket_path).bind(Bind::Bound).unlinks() == Some(socket_path),
        Listener::fresh(socket_path).bind(Bind::AddrInUse).unlinks() == None::<Seq<char>>,
{
}

/// Decides what the host is told once the thread of the listener has
/// reported, or has gone away without a report: `received` is the report,
/// or the text of the error of waiting for it.
pub fn listener_started(received: Result<Result<String, String>, String>) -> (report: Result<
    String,
    FFIError,
>)
    ensures
        match received {
            Ok(Ok(path)) => report matches Ok(told) && told@ == path@,
            Ok(Err(message)) => report matches Err(error) && error@ == HostError::Uds(message@),
            Err(text) => report matches Err(error) && error@ == HostError::Uds(text@),
        },
{
    match received {
        Ok(Ok(path)) => Ok(path),
        Ok(Err(error_message)) => Err(FFIError::Uds(error_message)),
        Err(error) => Err(FFIError::Uds(error)),
    }
}

/// A signal as the listener sees it.
#[derive(Clone, Copy, Debug, PartialEq, Eq, Structural)]
pub enum Signal {
    /// The request to terminate.
    Terminate,
    /// The request to quit.
    Quit,
    /// The interrupt from the keyboard.
    Interrupt,
    /// The hangup of the controlling terminal.
    Hangup,
    /// Any other signal.
    Other,
}

/// What happened in the accept loop.
#[derive(Clone, Copy, Debug, PartialEq, Eq, Structural)]
pub enum ListenerEvent {
    /// A client connected.
    Accepted,
    /// Accepting failed.
    AcceptFailed,
    /// A signal arrived.
    Signalled(Signal),
}

/// What the accept loop does next.
#[derive(Clone, Copy, Debug, PartialEq, Eq, Structural)]
pub enum ListenerStep {
    /// Start a session for the client and go on accepting.
    SpawnSession,
    /// Go on accepting.
    Continue,
    /// Leave the accept loop.
    Stop,
}

/// Whether a signal ends the accept loop.
pub open spec fn ends_listener(signal: Signal) -> bool {
    !(signal is Other)
}

/// The signals that the listener waits for.
pub fn watched_signals() -> (signals: [Signal; 4])
    ensures
        signals@ == seq![Signal::Terminate, Signal::Quit, Signal::Interrupt, Signal::Hangup],
        forall|signal: Signal| ends_listener(signal) <==> signals@.contains(signal),
{
    let signals = [Signal::Terminate, Signal::Quit, Signal::Interrupt, Signal::Hangup];
    proof {
        let all = seq![Signal::Terminate, Signal::Quit, Signal::Interrupt, Signal::Hangup];
        assert(signals@ =~= all);
        assert(all[0] == Signal::Terminate && all[1] == Signal::Quit && all[2]
            == Signal::Interrupt && all[3] == Signal::Hangup);
    }
    signals
}

/// Decides whether a signal ends the accept loop: the requests to
/// terminate, to quit and to hang up and the interrupt do, nothing else.
pub fn handle_signals(signal: Signal) -> (stop: bool)
    ensures
        stop == ends_listener(signal),
{
    match signal {
        Signal::Terminate => true,
        Signal::Quit => true,
        Signal::Interrupt => true,
        Signal::Hangup => true,
        Signal::Other => false,
    }
}

/// What an event of the accept loop leads to.
pub open spec fn listener_step(event: ListenerEvent) -> ListenerStep {
    match event {
        ListenerEvent::Accepted => ListenerStep::SpawnSession,
        ListenerEvent::AcceptFailed => ListenerStep::Stop,
        ListenerEvent::Signalled(signal) => if ends_listener(signal) {
            ListenerStep::Stop
        } else {
            ListenerStep::Continue
        },
    }
}

/// Decides what the accept loop does next: a client gets a session, and a
/// failure to accept or a signal that ends the listener leaves the loop.
pub fn accept_step(event: ListenerEvent) -> (step: ListenerStep)
    ensures
        step == listener_step(event),
{
    match event {
        ListenerEvent::Accepted => ListenerStep::SpawnSession,
        ListenerEvent::AcceptFailed => ListenerStep::Stop,
        ListenerEvent::Signalled(signal) => {
            if handle_signals(signal) {
                ListenerStep::Stop
            } else {
                ListenerStep::Continue
            }
        },
    }
}

} // verus!
