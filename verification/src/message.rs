use vstd::prelude::*;
use vstd::string::StringExecFns;

verus! {

/// One logical write: a capture-time timestamp paired with a monotonically
/// assigned commit sequence number.  Both are carried as opaque text; the
/// protocol never inspects them, it only stores and logs them.
pub struct Transaction {
    pub timestamp: String,
    pub commit_number: String,
}

impl Clone for Transaction {
    fn clone(&self) -> (r: Self)
        ensures
            r == *self,
    {
        Transaction {
            timestamp: self.timestamp.clone(),
            commit_number: self.commit_number.clone(),
        }
    }
}

/// The messages exchanged among client, coordinator and participants.
pub enum Message {
    /// Client -> coordinator: start a round for this transaction.
    WriteRequest(Transaction),
    /// Coordinator -> participant: ask for a vote on this transaction.
    PrepareRequest(Transaction),
    /// Participant -> coordinator: the vote (`true` = ready).
    PrepareResponse(bool),
    /// Coordinator -> participant, and coordinator -> client on success.
    CommitRequest,
    /// Coordinator -> participant, and coordinator -> client on failure.
    AbortRequest,
    /// Participant -> coordinator: the resolution was applied.
    Ack,
}

impl Clone for Message {
    fn clone(&self) -> (r: Self)
        ensures
            r == *self,
    {
        match self {
            Message::WriteRequest(t) => Message::WriteRequest(t.clone()),
            Message::PrepareRequest(t) => Message::PrepareRequest(t.clone()),
            Message::PrepareResponse(b) => Message::PrepareResponse(*b),
            Message::CommitRequest => Message::CommitRequest,
            Message::AbortRequest => Message::AbortRequest,
            Message::Ack => Message::Ack,
        }
    }
}

/// The outcome of one protocol round.
#[derive(Clone, Copy, PartialEq, Eq, Structural, Debug)]
pub enum Decision {
    Commit,
    Abort,
}

/// The exact line a participant appends to its durable log when it locally
/// commits `t`.
pub open spec fn log_line(t: Transaction) -> Seq<char> {
    t.timestamp@ + " commit "@ + t.commit_number@ + "\n"@
}

/// Renders the durable log line for a committed transaction.
pub fn format_log_line(t: &Transaction) -> (r: String)
    ensures
        r@ == log_line(*t),
{
    let mut s = t.timestamp.clone();
    s.append(" commit ");
    s.append(t.commit_number.as_str());
    s.append("\n");
    s
}

} // verus!
