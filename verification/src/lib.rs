//! A verified model of the two-phase commit protocol: a coordinator drives a
//! fixed set of participants through a prepare/vote phase followed by a
//! commit-or-abort resolution, and committed writes are appended to each
//! participant's durable log.
//!
//! The state machines here are pure: they map a state and an inbound message
//! to a successor state and the actions to perform (messages to send, log
//! lines to append).  An embedding program owns the channels, the clock and
//! the log files, and drives these machines one message at a time.

pub mod coordinator;
pub mod message;
pub mod participant;
pub mod round;
