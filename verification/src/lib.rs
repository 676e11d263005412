//! Telemetry gateway engine for fleet-tracking terminals speaking the
//! JT/T 808 binary protocol.
//!
//! The crate holds the protocol core: the byte-stream framer and escape
//! codec, the fragment reassembler, the per-device session state machine
//! with command/ack correlation, the process-wide session registry, and
//! the forwarding registry that routes device traffic to dynamically
//! subscribed consumers through a version-stamped cache.  Socket and
//! timer plumbing live outside the crate; every function here is a pure
//! state transition over plain values and is verified.

pub mod config_model;
pub mod jt808_codec;
pub mod service_device;
pub mod service_http;
pub mod service_forward;
pub mod session808;
pub mod session_forward;
