use twopc::message::{Decision, Transaction};
use twopc::participant::Participant;
use twopc::round::{run_round, run_simulation};

fn txn(ts: &str, n: &str) -> Transaction {
    Transaction { timestamp: String::from(ts), commit_number: String::from(n) }
}

#[test]
fn two_ready_participants_commit() {
    let parts = vec![Participant::new(), Participant::new()];
    let readiness = vec![true, true];
    let r = run_round(parts, &readiness, &txn("T1", "1"));
    assert_eq!(r.decision, Decision::Commit);
    assert_eq!(r.appended.len(), 2);
    assert_eq!(r.appended[0].as_deref(), Some("T1 commit 1\n"));
    assert_eq!(r.appended[1].as_deref(), Some("T1 commit 1\n"));
    assert!(r.participants.iter().all(|p| p.buffer.is_none()));
}

#[test]
fn one_not_ready_participant_aborts_for_all() {
    let parts = vec![Participant::new(), Participant::new()];
    let readiness = vec![true, false];
    let r = run_round(parts, &readiness, &txn("T1", "1"));
    assert_eq!(r.decision, Decision::Abort);
    // No participant's log changes, and the ready participant's buffer is
    // cleared without being flushed.
    assert!(r.appended.iter().all(|a| a.is_none()));
    assert!(r.participants.iter().all(|p| p.buffer.is_none()));
}

#[test]
fn abort_clears_a_stale_buffer() {
    let parts = vec![Participant { buffer: Some(txn("old", "0")) }];
    let readiness = vec![false];
    let r = run_round(parts, &readiness, &txn("T1", "1"));
    assert_eq!(r.decision, Decision::Abort);
    assert!(r.appended[0].is_none());
    assert!(r.participants[0].buffer.is_none());
}

#[test]
fn round_with_no_participants_commits() {
    let r = run_round(Vec::new(), &Vec::new(), &txn("T1", "1"));
    assert_eq!(r.decision, Decision::Commit);
    assert!(r.appended.is_empty());
    assert!(r.participants.is_empty());
}

#[test]
fn simulation_reports_outcomes_in_submission_order() {
    let txns = vec![txn("t1", "1"), txn("t2", "2"), txn("t3", "3")];
    let readiness = vec![vec![true, true], vec![true, false], vec![true, true]];
    let r = run_simulation(2, &txns, &readiness);
    assert_eq!(r.outcomes, vec![Decision::Commit, Decision::Abort, Decision::Commit]);
    assert_eq!(r.logs.len(), 2);
    for log in &r.logs {
        assert_eq!(log.len(), 2);
        assert_eq!(log[0], "t1 commit 1\n");
        assert_eq!(log[1], "t3 commit 3\n");
    }
    assert!(r.participants.iter().all(|p| p.buffer.is_none()));
}

#[test]
fn simulation_with_no_rounds_changes_nothing() {
    let r = run_simulation(2, &Vec::new(), &Vec::new());
    assert!(r.outcomes.is_empty());
    assert_eq!(r.logs.len(), 2);
    assert!(r.logs.iter().all(|l| l.is_empty()));
}

#[test]
fn simulation_all_rounds_abort_leaves_logs_empty() {
    let txns = vec![txn("t1", "1"), txn("t2", "2")];
    let readiness = vec![vec![false, false], vec![false, true]];
    let r = run_simulation(2, &txns, &readiness);
    assert_eq!(r.outcomes, vec![Decision::Abort, Decision::Abort]);
    assert!(r.logs.iter().all(|l| l.is_empty()));
}
