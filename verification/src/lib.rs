//! A Lamport logical clock and the two-process message-exchange protocol
//! built on it: a scalar counter per process that, together with the
//! timestamping rule for messages, keeps clock values consistent with
//! causality.

pub mod clock;
pub mod laws;
pub mod process;
