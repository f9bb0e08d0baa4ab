//! The protocol engine of a test-double worker for a remote task-dispatch
//! server: a verified codec for the tagged binary message envelopes, the
//! framing discipline over a stream of bytes, the registration and heartbeat
//! session state machine, the factories for outbound envelopes, and the
//! workflow policy a driver loop dispatches to. Socket handling, argument
//! parsing and logging live outside the library and hand it plain values.

pub mod codec;
pub mod envelope;
pub mod errors;
pub mod worker;
pub mod messages;
pub mod payload;
pub mod driver;
