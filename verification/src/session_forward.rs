//! Forwarding-channel engine: the control/data frame parser, one
//! session per connected forwarding consumer, and the per-consumer
//! subscription items.

pub mod forward_item;
pub mod forward_parse;
pub mod forward_session;
