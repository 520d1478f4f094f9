//! From a request to the events for the client: the request is taken in and bound to the
//! upstream, its answer is buffered, tool calls are resolved, and the rest is delivered.

pub mod request;
pub mod buffer;
pub mod delivery;
pub mod probe;
pub mod completion;
pub mod laws;
pub mod effect_laws;
