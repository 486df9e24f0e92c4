//! A small message-queue demonstration library: plain inventory and
//! customer records, a JSON wire codec for them, a simulated producer
//! that numbers its items, and the decision logic of publish and
//! consume operations against an AMQP broker. All network traffic is
//! left to the caller; this crate computes addresses, queue names,
//! payloads and state transitions, and proves what it computes.

pub mod broker;
pub mod consumer;
pub mod json;
pub mod producer;
pub mod records;
