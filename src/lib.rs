//! Message reliability and group-consensus core of a routing layer: duplicate
//! suppression, quorum accumulation, acknowledgement-driven retries and
//! reassembly of split user messages, driven by a client state machine.

pub mod id;
pub mod data;
pub mod messages;
pub mod signed_message_filter;
pub mod message_accumulator;
pub mod ack_manager;
pub mod user_message;
pub mod fingerprint;
pub mod client;
