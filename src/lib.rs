//! Admission firewall core: the wire encodings shared by the packet classifier
//! and the userspace control process, the shared state store, the per-packet
//! classification state machine, and the policy applied to events and
//! administrative commands.

pub mod classifier;
pub mod endpoint;
pub mod event;
pub mod policy;
pub mod status;
pub mod store;
