use twopc::coordinator::{Action, Coordinator, Phase};
use twopc::message::{format_log_line, Decision, Message, Transaction};
use twopc::participant::Participant;

fn txn(ts: &str, n: &str) -> Transaction {
    Transaction { timestamp: String::from(ts), commit_number: String::from(n) }
}

#[test]
fn log_line_format_exact() {
    let t = txn("2024-01-02T03:04:05.123456Z", "7");
    let line = format_log_line(&t);
    assert_eq!(line, "2024-01-02T03:04:05.123456Z commit 7\n");
}

#[test]
fn prepare_ready_buffers_and_votes() {
    let p = Participant::new();
    let (next, log, reply) = p.step(Message::PrepareRequest(txn("T", "1")), true);
    let buffered = next.buffer.expect("ready vote must buffer the transaction");
    assert_eq!(buffered.timestamp, "T");
    assert_eq!(buffered.commit_number, "1");
    assert!(log.is_none());
    assert!(matches!(reply, Some(Message::PrepareResponse(true))));
}

#[test]
fn prepare_not_ready_leaves_buffer_empty() {
    let p = Participant::new();
    let (next, log, reply) = p.step(Message::PrepareRequest(txn("T", "1")), false);
    assert!(next.buffer.is_none());
    assert!(log.is_none());
    assert!(matches!(reply, Some(Message::PrepareResponse(false))));
}

#[test]
fn commit_with_buffer_appends_and_acks() {
    let p = Participant { buffer: Some(txn("T", "3")) };
    let (next, log, reply) = p.step(Message::CommitRequest, false);
    assert!(next.buffer.is_none());
    assert_eq!(log.as_deref(), Some("T commit 3\n"));
    assert!(matches!(reply, Some(Message::Ack)));
}

#[test]
fn commit_without_buffer_skips_append_but_acks() {
    let p = Participant::new();
    let (next, log, reply) = p.step(Message::CommitRequest, false);
    assert!(next.buffer.is_none());
    assert!(log.is_none());
    assert!(matches!(reply, Some(Message::Ack)));
}

#[test]
fn abort_clears_buffer_without_flushing() {
    let p = Participant { buffer: Some(txn("T", "4")) };
    let (next, log, reply) = p.step(Message::AbortRequest, false);
    assert!(next.buffer.is_none());
    assert!(log.is_none());
    assert!(matches!(reply, Some(Message::Ack)));
}

#[test]
fn participant_ignores_unexpected_messages() {
    let p = Participant { buffer: Some(txn("T", "5")) };
    let (next, log, reply) = p.step(Message::Ack, false);
    let kept = next.buffer.expect("an ignored message must not disturb the buffer");
    assert_eq!(kept.commit_number, "5");
    assert!(log.is_none());
    assert!(reply.is_none());
}

#[test]
fn coordinator_full_round_commits_on_unanimous_votes() {
    let c = Coordinator::new(2);
    let (c, acts) = c.step(Message::WriteRequest(txn("T", "1")));
    assert_eq!(acts.len(), 1);
    assert!(matches!(&acts[0], Action::ToParticipants(Message::PrepareRequest(_))));

    let (c, acts) = c.step(Message::PrepareResponse(true));
    assert!(acts.is_empty());
    let (c, acts) = c.step(Message::PrepareResponse(true));
    assert_eq!(acts.len(), 1);
    assert!(matches!(&acts[0], Action::ToParticipants(Message::CommitRequest)));

    let (c, acts) = c.step(Message::Ack);
    assert!(acts.is_empty());
    let (c, acts) = c.step(Message::Ack);
    assert_eq!(acts.len(), 1);
    assert!(matches!(&acts[0], Action::ToClient(Message::CommitRequest)));
    assert_eq!(c.phase, Phase::Idle);
}

#[test]
fn coordinator_single_not_ready_vote_aborts() {
    let c = Coordinator::new(2);
    let (c, _) = c.step(Message::WriteRequest(txn("T", "1")));
    let (c, acts) = c.step(Message::PrepareResponse(true));
    assert!(acts.is_empty());
    let (c, acts) = c.step(Message::PrepareResponse(false));
    assert_eq!(acts.len(), 1);
    assert!(matches!(&acts[0], Action::ToParticipants(Message::AbortRequest)));

    let (c, _) = c.step(Message::Ack);
    let (_, acts) = c.step(Message::Ack);
    assert!(matches!(&acts[0], Action::ToClient(Message::AbortRequest)));
}

#[test]
fn coordinator_counts_responses_without_attributing_them() {
    // Response slots are filled by count, not by sender: a stray non-vote
    // message takes a slot and leaves the running conjunction untouched.
    let c = Coordinator::new(2);
    let (c, _) = c.step(Message::WriteRequest(txn("T", "1")));
    let (c, acts) = c.step(Message::Ack);
    assert!(acts.is_empty());
    assert_eq!(c.phase, Phase::Voting { votes_received: 1, all_prepared: true });
    let (c, acts) = c.step(Message::PrepareResponse(true));
    assert!(matches!(&acts[0], Action::ToParticipants(Message::CommitRequest)));
    assert_eq!(c.phase, Phase::Acking { decision: Decision::Commit, acks_received: 0 });
}

#[test]
fn coordinator_ignores_votes_while_idle() {
    let c = Coordinator::new(2);
    let (c, acts) = c.step(Message::PrepareResponse(false));
    assert!(acts.is_empty());
    assert_eq!(c.phase, Phase::Idle);
}

#[test]
fn coordinator_with_no_participants_commits_immediately() {
    let c = Coordinator::new(0);
    let (c, acts) = c.step(Message::WriteRequest(txn("T", "1")));
    assert_eq!(acts.len(), 3);
    assert!(matches!(&acts[0], Action::ToParticipants(Message::PrepareRequest(_))));
    assert!(matches!(&acts[1], Action::ToParticipants(Message::CommitRequest)));
    assert!(matches!(&acts[2], Action::ToClient(Message::CommitRequest)));
    assert_eq!(c.phase, Phase::Idle);
}
