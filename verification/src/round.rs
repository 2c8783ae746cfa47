use vstd::prelude::*;

use crate::coordinator::{decision_of, Coordinator, Phase};
use crate::message::{log_line, Decision, Message, Transaction};
use crate::participant::Participant;

verus! {

/// Every vote in `readiness` is ready.
pub open spec fn all_ready(readiness: Seq<bool>) -> bool {
    forall|i: int| 0 <= i < readiness.len() ==> readiness[i]
}

/// What one full protocol round produced.
pub struct RoundResult {
    /// The decision the coordinator announced and reported to the client.
    pub decision: Decision,
    /// The participants after the round resolved.
    pub participants: Vec<Participant>,
    /// Per participant, the line it appended to its durable log, if any.
    pub appended: Vec<Option<String>>,
}

proof fn lemma_all_ready_extend(s: Seq<bool>, i: int)
    requires
        0 <= i < s.len(),
    ensures
        all_ready(s.take(i + 1)) == (all_ready(s.take(i)) && s[i]),
{
    if all_ready(s.take(i)) && s[i] {
        assert forall|j: int| 0 <= j < i + 1 implies #[trigger] s.take(i + 1)[j] by {
            if j < i {
                assert(s.take(i)[j]);
            } else {
                assert(s.take(i + 1)[j] == s[i]);
            }
        }
    }
    if all_ready(s.take(i + 1)) {
        assert forall|j: int| 0 <= j < i implies #[trigger] s.take(i)[j] by {
            assert(s.take(i + 1)[j]);
        }
        assert(s.take(i + 1)[i]);
    }
}

/// Runs one protocol round to completion: fans a `PrepareRequest` out to
/// every participant, collects the votes at the coordinator, announces the
/// decision, applies it at every participant, and collects the
/// acknowledgments.  Readiness is injected per participant, so a round is a
/// pure function of its inputs.
///
/// The contract states the round's guarantees at once:
/// - the decision is `Commit` exactly when every participant was ready;
/// - every participant's buffer is empty once the round has resolved,
///   whichever way it went;
/// - on `Commit` every participant appends exactly the log line for this
///   transaction, and on `Abort` no participant appends anything.
pub fn run_round(participants: Vec<Participant>, readiness: &Vec<bool>, txn: &Transaction) -> (r:
    RoundResult)
    requires
        participants@.len() == readiness@.len(),
    ensures
        r.decision == decision_of(all_ready(readiness@)),
        r.participants@.len() == participants@.len(),
        forall|i: int| 0 <= i < r.participants@.len() ==> r.participants@[i].buffer is None,
        r.appended@.len() == participants@.len(),
        forall|i: int|
            0 <= i < r.appended@.len() ==> (match #[trigger] r.appended@[i] {
                Some(s) => all_ready(readiness@) && s@ == log_line(*txn),
                None => !all_ready(readiness@),
            }),
{
    let n = participants.len();
    let mut coord = Coordinator::new(n);
    let start = coord.step(Message::WriteRequest(txn.clone()));
    coord = start.0;
    if n == 0 {
        // The empty conjunction of votes holds: the round commits at once,
        // with nobody to buffer or append anything.
        return RoundResult {
            decision: Decision::Commit,
            participants,
            appended: Vec::new(),
        };
    }

    // Prepare phase: deliver the request to each participant and feed its
    // vote straight back into the coordinator.
    let mut prepared: Vec<Participant> = Vec::new();
    let mut i: usize = 0;
    while i < n
        invariant
            n == participants@.len(),
            n == readiness@.len(),
            1 <= n,
            i <= n,
            prepared@.len() == i,
            forall|j: int|
                0 <= j < i ==> prepared@[j].buffer == (if readiness@[j] {
                    Some(*txn)
                } else {
                    participants@[j].buffer
                }),
            coord.n == n,
            coord.wf(),
            i < n ==> coord.phase == (Phase::Voting {
                votes_received: i,
                all_prepared: all_ready(readiness@.take(i as int)),
            }),
            i == n ==> coord.phase == (Phase::Acking {
                decision: decision_of(all_ready(readiness@)),
                acks_received: 0,
            }),
        decreases n - i,
    {
        let step_r = participants[i].step(Message::PrepareRequest(txn.clone()), readiness[i]);
        prepared.push(step_r.0);
        let vote = step_r.2.unwrap();
        let coord_r = coord.step(vote);
        coord = coord_r.0;
        proof {
            lemma_all_ready_extend(readiness@, i as int);
            if i + 1 == n {
                assert(readiness@.take(n as int) =~= readiness@);
            }
        }
        i = i + 1;
    }

    let decision = match coord.phase {
        Phase::Acking { decision, .. } => decision,
        _ => Decision::Abort,
    };

    // Resolution phase: announce the decision to each participant, record
    // what it appended to its log, and feed its acknowledgment back into
    // the coordinator.
    let mut resolved: Vec<Participant> = Vec::new();
    let mut appended: Vec<Option<String>> = Vec::new();
    let mut i: usize = 0;
    while i < n
        invariant
            n == readiness@.len(),
            1 <= n,
            i <= n,
            decision == decision_of(all_ready(readiness@)),
            prepared@.len() == n,
            forall|j: int|
                0 <= j < n ==> (readiness@[j] ==> prepared@[j].buffer == Some(*txn)),
            resolved@.len() == i,
            appended@.len() == i,
            forall|j: int| 0 <= j < i ==> resolved@[j].buffer is None,
            forall|j: int|
                0 <= j < i ==> (match #[trigger] appended@[j] {
                    Some(s) => all_ready(readiness@) && s@ == log_line(*txn),
                    None => !all_ready(readiness@),
                }),
            coord.n == n,
            coord.wf(),
            i < n ==> coord.phase == (Phase::Acking { decision, acks_received: i }),
            i == n ==> coord.phase is Idle,
        decreases n - i,
    {
        let announce = match decision {
            Decision::Commit => Message::CommitRequest,
            Decision::Abort => Message::AbortRequest,
        };
        let step_r = prepared[i].step(announce, false);
        resolved.push(step_r.0);
        appended.push(step_r.1);
        let ack = step_r.2.unwrap();
        proof {
            if all_ready(readiness@) {
                assert(readiness@[i as int]);
                assert(prepared@[i as int].buffer == Some(*txn));
                assert(appended@[i as int] matches Some(s) && s@ == log_line(*txn));
            } else {
                assert(decision == Decision::Abort);
                assert(appended@[i as int] is None);
            }
        }
        let coord_r = coord.step(ack);
        coord = coord_r.0;
        i = i + 1;
    }

    RoundResult { decision, participants: resolved, appended }
}

/// The views of a sequence of owned strings.
pub open spec fn views_of(v: Seq<String>) -> Seq<Seq<char>> {
    v.map_values(|s: String| s@)
}

/// The durable log every participant holds after the given rounds have
/// run: one line per committed round, in round order.  Rounds that abort
/// leave no trace.
pub open spec fn committed_lines(txns: Seq<Transaction>, readiness: Seq<Vec<bool>>) -> Seq<
    Seq<char>,
>
    decreases txns.len(),
{
    if txns.len() == 0 {
        Seq::empty()
    } else {
        committed_lines(txns.drop_last(), readiness.drop_last()) + (if all_ready(
            readiness.last()@,
        ) {
            seq![log_line(txns.last())]
        } else {
            Seq::empty()
        })
    }
}

proof fn lemma_committed_lines_extend(txns: Seq<Transaction>, readiness: Seq<Vec<bool>>, k: int)
    requires
        0 <= k < txns.len(),
        txns.len() == readiness.len(),
    ensures
        committed_lines(txns.take(k + 1), readiness.take(k + 1)) == committed_lines(
            txns.take(k),
            readiness.take(k),
        ) + (if all_ready(readiness[k]@) {
            seq![log_line(txns[k])]
        } else {
            Seq::<Seq<char>>::empty()
        }),
{
    let t1 = txns.take(k + 1);
    let r1 = readiness.take(k + 1);
    assert(t1.drop_last() =~= txns.take(k));
    assert(r1.drop_last() =~= readiness.take(k));
    assert(t1.last() == txns[k]);
    assert(r1.last() == readiness[k]);
}

/// What a full simulation produced: the per-round outcomes in submission
/// order, the participants' durable logs, and their final states.
pub struct SimulationResult {
    pub outcomes: Vec<Decision>,
    pub logs: Vec<Vec<String>>,
    pub participants: Vec<Participant>,
}

/// Drives a whole simulation: `n` fresh participants and one coordinator
/// process the write requests strictly in order, one round at a time, the
/// next request starting only once the previous round has reported its
/// outcome.  `readiness` injects, per round and per participant, the vote
/// the participant's randomness source would have drawn.
///
/// The contract ties every round's report to its request: outcome `k` is
/// the decision of round `k`, so outcomes arrive in submission order with
/// none skipped or duplicated; each participant's log holds exactly the
/// lines of the committed rounds, in order; and every buffer is empty
/// between rounds.
pub fn run_simulation(n: usize, txns: &Vec<Transaction>, readiness: &Vec<Vec<bool>>) -> (r:
    SimulationResult)
    requires
        txns@.len() == readiness@.len(),
        forall|k: int| 0 <= k < readiness@.len() ==> #[trigger] readiness@[k]@.len() == n,
    ensures
        r.outcomes@.len() == txns@.len(),
        forall|k: int|
            0 <= k < txns@.len() ==> #[trigger] r.outcomes@[k] == decision_of(
                all_ready(readiness@[k]@),
            ),
        r.logs@.len() == n,
        forall|p: int|
            0 <= p < n ==> views_of(#[trigger] r.logs@[p]@) == committed_lines(txns@, readiness@),
        r.participants@.len() == n,
        forall|p: int| 0 <= p < n ==> #[trigger] r.participants@[p].buffer is None,
{
    let mut parts: Vec<Participant> = Vec::new();
    let mut logs: Vec<Vec<String>> = Vec::new();
    let mut p: usize = 0;
    while p < n
        invariant
            p <= n,
            parts@.len() == p,
            logs@.len() == p,
            forall|q: int| 0 <= q < p ==> #[trigger] parts@[q].buffer is None,
            forall|q: int| 0 <= q < p ==> #[trigger] logs@[q]@ =~= Seq::<String>::empty(),
        decreases n - p,
    {
        parts.push(Participant::new());
        logs.push(Vec::new());
        p = p + 1;
    }

    let rounds = txns.len();
    let mut outcomes: Vec<Decision> = Vec::new();
    let mut k: usize = 0;
    while k < rounds
        invariant
            rounds == txns@.len(),
            rounds == readiness@.len(),
            forall|j: int| 0 <= j < rounds ==> #[trigger] readiness@[j]@.len() == n,
            k <= rounds,
            outcomes@.len() == k,
            forall|j: int|
                0 <= j < k ==> #[trigger] outcomes@[j] == decision_of(all_ready(readiness@[j]@)),
            parts@.len() == n,
            forall|q: int| 0 <= q < n ==> #[trigger] parts@[q].buffer is None,
            logs@.len() == n,
            forall|q: int|
                0 <= q < n ==> views_of(#[trigger] logs@[q]@) == committed_lines(
                    txns@.take(k as int),
                    readiness@.take(k as int),
                ),
        decreases rounds - k,
    {
        let round = run_round(parts, &readiness[k], &txns[k]);
        outcomes.push(round.decision);
        parts = round.participants;

        let ghost logs0 = logs@;
        match round.decision {
            Decision::Commit => {
                let mut p: usize = 0;
                while p < n
                    invariant
                        p <= n,
                        all_ready(readiness@[k as int]@),
                        k < rounds,
                        rounds == txns@.len(),
                        round.appended@.len() == n,
                        forall|q: int|
                            0 <= q < n ==> (match #[trigger] round.appended@[q] {
                                Some(s) => s@ == log_line(txns@[k as int]),
                                None => false,
                            }),
                        logs@.len() == n,
                        logs0.len() == n,
                        forall|q: int|
                            0 <= q < p ==> views_of(#[trigger] logs@[q]@) == views_of(
                                logs0[q]@,
                            ).push(log_line(txns@[k as int])),
                        forall|q: int| p <= q < n ==> #[trigger] logs@[q] == logs0[q],
                    decreases n - p,
                {
                    match &round.appended[p] {
                        Some(line) => {
                            logs[p].push(line.clone());
                            proof {
                                assert(views_of(logs@[p as int]@) =~= views_of(
                                    logs0[p as int]@,
                                ).push(log_line(txns@[k as int])));
                            }
                        },
                        None => {},
                    }
                    p = p + 1;
                }
            },
            Decision::Abort => {},
        }

        proof {
            lemma_committed_lines_extend(txns@, readiness@, k as int);
            assert forall|q: int| 0 <= q < n implies views_of(#[trigger] logs@[q]@)
                == committed_lines(txns@.take(k as int + 1), readiness@.take(k as int + 1)) by {
                if all_ready(readiness@[k as int]@) {
                    assert(views_of(logs0[q]@).push(log_line(txns@[k as int])) =~= views_of(
                        logs0[q]@,
                    ) + seq![log_line(txns@[k as int])]);
                } else {
                    assert(logs@[q] == logs0[q]);
                }
            }
        }
        k = k + 1;
    }

    proof {
        assert(txns@.take(rounds as int) =~= txns@);
        assert(readiness@.take(rounds as int) =~= readiness@);
    }
    SimulationResult { outcomes, logs, participants: parts }
}

} // verus!
