//! The decision logic of a gateway that serves chat completions from a pool of
//! upstream web accounts: which account serves a request, how failures are
//! classified and retried, how the upstream event stream is buffered and
//! delivered, and how tool calls are hardened on the way out.
//!
//! Every function here is pure or works on plain values. Clocks, randomness,
//! sockets and files live outside; their readings come in as arguments.

pub mod text;
pub mod text_laws;

pub mod heap;
pub mod account;
pub mod email_set;
pub mod pool;
pub mod json;
pub mod tokens;
pub mod events;
pub mod toolcalls;
pub mod toolcall_laws;
pub mod execution;
pub mod upstream;
