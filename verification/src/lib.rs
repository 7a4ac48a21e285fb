//! Core of a local bridge that lets a host-language wrapper talk to a
//! key-value store through a Unix domain socket: the length-prefixed wire
//! format, the rotating receive buffer, the reply writer and the decisions of
//! the per-connection session, of the socket listener and of the host
//! binding.
//!
//! Everything here works on plain values. Sockets, tasks, signals, the
//! backing client and the host's virtual machine are driven by the caller,
//! which reports what happened and performs what these functions decide.
//!
//! * [`headers`], [`requests`], [`responses`]: the frames on the wire.
//! * [`rotating_buffer`]: from bytes as they arrive to whole requests.
//! * [`writer`]: from responses to bytes as the socket takes them.
//! * [`session`]: one connection, from the bootstrap to its end.
//! * [`socket_listener`]: binding, accepting, signals and cleanup.
//! * [`value_resolver`], [`logger`], [`errors`]: what the host binding
//!   makes of replies, log levels and errors.
//! * [`text`]: numbers and bytes as text.

pub mod errors;
pub mod headers;
pub mod logger;
pub mod requests;
pub mod responses;
pub mod rotating_buffer;
pub mod session;
pub mod socket_listener;
pub mod text;
pub mod value_resolver;
pub mod writer;
