//! Device-protocol engine: stream framing, fragment reassembly, and the
//! per-connection session state machine.

pub mod jt808_parse;
pub mod jt808_session;
