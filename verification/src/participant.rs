use vstd::prelude::*;

use crate::message::{format_log_line, log_line, Message};
use crate::message::Transaction;

verus! {

/// One participant's protocol state: at most one buffered pending write,
/// held only between a ready vote and the resolution of the same round.
pub struct Participant {
    pub buffer: Option<Transaction>,
}

impl Participant {
    /// A fresh participant is idle, with nothing buffered.
    pub fn new() -> (r: Self)
        ensures
            r.buffer is None,
    {
        Participant { buffer: None }
    }

    /// Handles one inbound message.  `ready` is the injected readiness
    /// decision; it is consulted only for a `PrepareRequest`, where the
    /// embedding program supplies it from its randomness source.
    ///
    /// Returns the successor state, the line to append to this
    /// participant's durable log (if any), and the reply to send to the
    /// coordinator (if any).  The log append must complete before the
    /// reply is sent: an acknowledgment promises durability.
    pub fn step(&self, msg: Message, ready: bool) -> (r: (Self, Option<String>, Option<Message>))
        ensures
            (match msg {
                Message::PrepareRequest(t) => {
                    &&& r.0.buffer == (if ready {
                        Some(t)
                    } else {
                        self.buffer
                    })
                    &&& r.1 is None
                    &&& r.2 == Some(Message::PrepareResponse(ready))
                },
                Message::CommitRequest => {
                    &&& r.0.buffer is None
                    &&& (match self.buffer {
                        Some(t) => r.1 matches Some(line) && line@ == log_line(t),
                        None => r.1 is None,
                    })
                    &&& r.2 == Some(Message::Ack)
                },
                Message::AbortRequest => {
                    &&& r.0.buffer is None
                    &&& r.1 is None
                    &&& r.2 == Some(Message::Ack)
                },
                _ => {
                    &&& r.0 == *self
                    &&& r.1 is None
                    &&& r.2 is None
                },
            }),
    {
        match msg {
            Message::PrepareRequest(t) => {
                let buf = if ready {
                    Some(t)
                } else {
                    match &self.buffer {
                        Some(b) => Some(b.clone()),
                        None => None,
                    }
                };
                (Participant { buffer: buf }, None, Some(Message::PrepareResponse(ready)))
            },
            Message::CommitRequest => {
                let line = match &self.buffer {
                    Some(t) => Some(format_log_line(t)),
                    None => None,
                };
                (Participant { buffer: None }, line, Some(Message::Ack))
            },
            Message::AbortRequest => {
                (Participant { buffer: None }, None, Some(Message::Ack))
            },
            _ => {
                let buf = match &self.buffer {
                    Some(b) => Some(b.clone()),
                    None => None,
                };
                (Participant { buffer: buf }, None, None)
            },
        }
    }
}

} // verus!
