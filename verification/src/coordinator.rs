use vstd::prelude::*;

use crate::message::{Decision, Message, Transaction};

verus! {

/// Where the coordinator stands inside one round.
///
/// Response counting is untagged by design: while collecting, every
/// inbound message fills one of the `n` expected slots, whoever sent it;
/// only a `PrepareResponse` additionally contributes its vote.
#[derive(Clone, Copy, PartialEq, Eq, Structural, Debug)]
pub enum Phase {
    /// Between rounds, waiting for the next write request.
    Idle,
    /// Prepare requests are out; collecting exactly `n` responses.
    Voting { votes_received: usize, all_prepared: bool },
    /// The decision is out; collecting exactly `n` acknowledgments.
    Acking { decision: Decision, acks_received: usize },
}

/// The coordinator's state: the fixed participant count and the phase.
#[derive(Clone, Copy, PartialEq, Eq, Structural, Debug)]
pub struct Coordinator {
    pub n: usize,
    pub phase: Phase,
}

/// A send the embedding program must perform on the coordinator's behalf.
pub enum Action {
    /// Send a copy of this message to every participant.
    ToParticipants(Message),
    /// Report this message to the client.
    ToClient(Message),
}

/// The round's decision, from the conjunction of the collected votes.
pub open spec fn decision_of(all_prepared: bool) -> Decision {
    if all_prepared {
        Decision::Commit
    } else {
        Decision::Abort
    }
}

/// The message that announces a decision, to participants and client alike.
pub open spec fn message_of(d: Decision) -> Message {
    match d {
        Decision::Commit => Message::CommitRequest,
        Decision::Abort => Message::AbortRequest,
    }
}

/// How `msg` updates the running conjunction of votes: a `PrepareResponse`
/// contributes its vote, any other message fills its slot without voting.
pub open spec fn vote_of(msg: Message) -> bool {
    match msg {
        Message::PrepareResponse(b) => b,
        _ => true,
    }
}

/// The coordinator's transition function: the successor state and the
/// sends to perform, in order.
pub open spec fn coordinator_step(c: Coordinator, msg: Message) -> (Coordinator, Seq<Action>) {
    match c.phase {
        Phase::Idle => match msg {
            Message::WriteRequest(t) => {
                if c.n == 0 {
                    // No participant to wait for: the empty conjunction
                    // holds, so the round commits at once.
                    (
                        c,
                        seq![
                            Action::ToParticipants(Message::PrepareRequest(t)),
                            Action::ToParticipants(Message::CommitRequest),
                            Action::ToClient(Message::CommitRequest),
                        ],
                    )
                } else {
                    (
                        Coordinator {
                            n: c.n,
                            phase: Phase::Voting { votes_received: 0, all_prepared: true },
                        },
                        seq![Action::ToParticipants(Message::PrepareRequest(t))],
                    )
                }
            },
            _ => (c, Seq::empty()),
        },
        Phase::Voting { votes_received, all_prepared } => {
            let all = all_prepared && vote_of(msg);
            if votes_received + 1 == c.n {
                let d = decision_of(all);
                (
                    Coordinator { n: c.n, phase: Phase::Acking { decision: d, acks_received: 0 } },
                    seq![Action::ToParticipants(message_of(d))],
                )
            } else {
                (
                    Coordinator {
                        n: c.n,
                        phase: Phase::Voting {
                            votes_received: (votes_received + 1) as usize,
                            all_prepared: all,
                        },
                    },
                    Seq::empty(),
                )
            }
        },
        Phase::Acking { decision, acks_received } => {
            if acks_received + 1 == c.n {
                (
                    Coordinator { n: c.n, phase: Phase::Idle },
                    seq![Action::ToClient(message_of(decision))],
                )
            } else {
                (
                    Coordinator {
                        n: c.n,
                        phase: Phase::Acking {
                            decision,
                            acks_received: (acks_received + 1) as usize,
                        },
                    },
                    Seq::empty(),
                )
            }
        },
    }
}

impl Coordinator {
    /// While collecting, the number of slots already filled stays below the
    /// participant count; the final slot's arrival leaves the phase.
    pub open spec fn wf(self) -> bool {
        match self.phase {
            Phase::Idle => true,
            Phase::Voting { votes_received, .. } => votes_received < self.n,
            Phase::Acking { acks_received, .. } => acks_received < self.n,
        }
    }

    /// A fresh coordinator for `n` participants, between rounds.
    pub fn new(n: usize) -> (r: Self)
        ensures
            r == (Coordinator { n, phase: Phase::Idle }),
            r.wf(),
    {
        Coordinator { n, phase: Phase::Idle }
    }

    /// Handles one inbound message, returning the successor state and the
    /// sends to perform, exactly as `coordinator_step` describes.
    pub fn step(&self, msg: Message) -> (r: (Self, Vec<Action>))
        requires
            self.wf(),
        ensures
            r.0 == coordinator_step(*self, msg).0,
            r.1@ == coordinator_step(*self, msg).1,
            r.0.wf(),
            r.0.n == self.n,
    {
        let mut actions: Vec<Action> = Vec::new();
        let next = match self.phase {
            Phase::Idle => match msg {
                Message::WriteRequest(t) => {
                    if self.n == 0 {
                        actions.push(Action::ToParticipants(Message::PrepareRequest(t)));
                        actions.push(Action::ToParticipants(Message::CommitRequest));
                        actions.push(Action::ToClient(Message::CommitRequest));
                        *self
                    } else {
                        actions.push(Action::ToParticipants(Message::PrepareRequest(t)));
                        Coordinator {
                            n: self.n,
                            phase: Phase::Voting { votes_received: 0, all_prepared: true },
                        }
                    }
                },
                _ => *self,
            },
            Phase::Voting { votes_received, all_prepared } => {
                let all = match msg {
                    Message::PrepareResponse(b) => all_prepared && b,
                    _ => all_prepared,
                };
                if votes_received + 1 == self.n {
                    let d = if all {
                        Decision::Commit
                    } else {
                        Decision::Abort
                    };
                    let announce = if all {
                        Message::CommitRequest
                    } else {
                        Message::AbortRequest
                    };
                    actions.push(Action::ToParticipants(announce));
                    Coordinator {
                        n: self.n,
                        phase: Phase::Acking { decision: d, acks_received: 0 },
                    }
                } else {
                    Coordinator {
                        n: self.n,
                        phase: Phase::Voting { votes_received: votes_received + 1, all_prepared: all },
                    }
                }
            },
            Phase::Acking { decision, acks_received } => {
                if acks_received + 1 == self.n {
                    let report = match decision {
                        Decision::Commit => Message::CommitRequest,
                        Decision::Abort => Message::AbortRequest,
                    };
                    actions.push(Action::ToClient(report));
                    Coordinator { n: self.n, phase: Phase::Idle }
                } else {
                    Coordinator {
                        n: self.n,
                        phase: Phase::Acking { decision, acks_received: acks_received + 1 },
                    }
                }
            },
        };
        proof {
            assert(actions@ =~= coordinator_step(*self, msg).1);
        }
        (next, actions)
    }
}

/// The coordinator's state after the messages in `msgs` have been
/// delivered to it in order.
pub open spec fn feed(c: Coordinator, msgs: Seq<Message>) -> Coordinator
    decreases msgs.len(),
{
    if msgs.len() == 0 {
        c
    } else {
        feed(coordinator_step(c, msgs[0]).0, msgs.drop_first())
    }
}

/// The conjunction of the votes carried by `msgs`, in delivery order.
pub open spec fn votes_conjunction(msgs: Seq<Message>) -> bool
    decreases msgs.len(),
{
    if msgs.len() == 0 {
        true
    } else {
        vote_of(msgs[0]) && votes_conjunction(msgs.drop_first())
    }
}

/// Some action in `acts` reports to the client.
pub open spec fn reports_to_client(acts: Seq<Action>) -> bool {
    exists|i: int| 0 <= i < acts.len() && acts[i] is ToClient
}

/// Some action in `acts` announces the round's decision to the
/// participants.
pub open spec fn announces_decision(acts: Seq<Action>) -> bool {
    exists|i: int|
        0 <= i < acts.len() && (#[trigger] acts[i] matches Action::ToParticipants(m) && (
        m is CommitRequest || m is AbortRequest))
}

proof fn lemma_feed_concat(c: Coordinator, a: Seq<Message>, b: Seq<Message>)
    ensures
        feed(c, a + b) == feed(feed(c, a), b),
    decreases a.len(),
{
    if a.len() == 0 {
        assert(a + b =~= b);
    } else {
        assert((a + b)[0] == a[0]);
        assert((a + b).drop_first() =~= a.drop_first() + b);
        lemma_feed_concat(coordinator_step(c, a[0]).0, a.drop_first(), b);
    }
}

proof fn lemma_votes_conjunction_forall(msgs: Seq<Message>)
    ensures
        votes_conjunction(msgs) <==> (forall|i: int|
            0 <= i < msgs.len() ==> vote_of(#[trigger] msgs[i])),
    decreases msgs.len(),
{
    if msgs.len() > 0 {
        lemma_votes_conjunction_forall(msgs.drop_first());
        assert(forall|i: int|
            0 <= i < msgs.drop_first().len() ==> #[trigger] msgs.drop_first()[i] == msgs[i + 1]);
        if vote_of(msgs[0]) && (forall|i: int|
            0 <= i < msgs.drop_first().len() ==> vote_of(#[trigger] msgs.drop_first()[i])) {
            assert forall|i: int| 0 <= i < msgs.len() implies vote_of(#[trigger] msgs[i]) by {
                if i > 0 {
                    assert(vote_of(msgs.drop_first()[i - 1]));
                }
            }
        }
        if forall|i: int| 0 <= i < msgs.len() ==> vote_of(#[trigger] msgs[i]) {
            assert forall|i: int|
                0 <= i < msgs.drop_first().len() implies vote_of(
                #[trigger] msgs.drop_first()[i],
            ) by {
                assert(vote_of(msgs[i + 1]));
            }
        }
    }
}

proof fn lemma_feed_voting(c: Coordinator, msgs: Seq<Message>, v: usize, a: bool)
    requires
        c.wf(),
        c.phase == (Phase::Voting { votes_received: v, all_prepared: a }),
        msgs.len() <= c.n - v,
    ensures
        msgs.len() < c.n - v ==> feed(c, msgs) == (Coordinator {
            n: c.n,
            phase: Phase::Voting {
                votes_received: (v + msgs.len()) as usize,
                all_prepared: a && votes_conjunction(msgs),
            },
        }),
        msgs.len() == c.n - v ==> feed(c, msgs) == (Coordinator {
            n: c.n,
            phase: Phase::Acking {
                decision: decision_of(a && votes_conjunction(msgs)),
                acks_received: 0,
            },
        }),
    decreases msgs.len(),
{
    if msgs.len() > 0 {
        let c1 = coordinator_step(c, msgs[0]).0;
        if v + 1 == c.n {
            assert(msgs.len() == 1);
            assert(msgs.drop_first().len() == 0);
            assert(votes_conjunction(msgs.drop_first()));
            assert(feed(c1, msgs.drop_first()) == c1);
        } else {
            lemma_feed_voting(c1, msgs.drop_first(), (v + 1) as usize, a && vote_of(msgs[0]));
        }
    }
}

proof fn lemma_feed_acking(c: Coordinator, msgs: Seq<Message>, d: Decision, acks: usize)
    requires
        c.wf(),
        c.phase == (Phase::Acking { decision: d, acks_received: acks }),
        msgs.len() <= c.n - acks,
    ensures
        msgs.len() < c.n - acks ==> feed(c, msgs) == (Coordinator {
            n: c.n,
            phase: Phase::Acking { decision: d, acks_received: (acks + msgs.len()) as usize },
        }),
        msgs.len() == c.n - acks ==> feed(c, msgs) == (Coordinator { n: c.n, phase: Phase::Idle }),
    decreases msgs.len(),
{
    if msgs.len() > 0 {
        let c1 = coordinator_step(c, msgs[0]).0;
        if acks + 1 < c.n {
            lemma_feed_acking(c1, msgs.drop_first(), d, (acks + 1) as usize);
        } else {
            assert(msgs.len() == 1);
            assert(msgs.drop_first().len() == 0);
            assert(feed(c1, msgs.drop_first()) == c1);
        }
    }
}

/// Decision soundness, stated over the message trace: once a write request
/// has opened a round with `n >= 1` expected responses, delivering the `n`
/// collected responses moves the coordinator to its resolution phase, and
/// the decision it will announce is `Commit` exactly when every one of
/// those responses voted ready.
pub proof fn lemma_decision_soundness(c: Coordinator, t: Transaction, votes: Seq<Message>)
    requires
        c.wf(),
        c.phase is Idle,
        c.n >= 1,
        votes.len() == c.n,
    ensures
        ({
            let opened = coordinator_step(c, Message::WriteRequest(t)).0;
            feed(opened, votes).phase == (Phase::Acking {
                decision: decision_of(votes_conjunction(votes)),
                acks_received: 0,
            })
        }),
        votes_conjunction(votes) <==> (forall|i: int|
            0 <= i < votes.len() ==> vote_of(#[trigger] votes[i])),
{
    let opened = coordinator_step(c, Message::WriteRequest(t)).0;
    lemma_feed_voting(opened, votes, 0, true);
    lemma_votes_conjunction_forall(votes);
}

/// Exactly-once acknowledgment, stated over the message trace: once a
/// write request has opened a round with `n >= 1` participants, the
/// coordinator announces its decision exactly upon the `n`-th inbound
/// message and reports to the client exactly upon the `2n`-th — never
/// fewer, never more — and only then is it ready for the next request.
pub proof fn lemma_exactly_n_messages_per_round(c: Coordinator, t: Transaction, msgs: Seq<Message>)
    requires
        c.wf(),
        c.phase is Idle,
        c.n >= 1,
        msgs.len() == 2 * c.n,
    ensures
        ({
            let opened = coordinator_step(c, Message::WriteRequest(t)).0;
            &&& forall|k: int|
                0 <= k < msgs.len() && k != c.n - 1 ==> !announces_decision(
                    coordinator_step(feed(opened, #[trigger] msgs.take(k)), msgs[k]).1,
                )
            &&& announces_decision(
                coordinator_step(feed(opened, msgs.take(c.n - 1)), msgs[c.n - 1]).1,
            )
            &&& forall|k: int|
                0 <= k < msgs.len() && k != 2 * c.n - 1 ==> !reports_to_client(
                    coordinator_step(feed(opened, #[trigger] msgs.take(k)), msgs[k]).1,
                )
            &&& reports_to_client(
                coordinator_step(feed(opened, msgs.take(2 * c.n - 1)), msgs[2 * c.n - 1]).1,
            )
            &&& feed(opened, msgs).phase is Idle
        }),
{
    let opened = coordinator_step(c, Message::WriteRequest(t)).0;
    let n = c.n as int;
    assert(opened.phase == (Phase::Voting { votes_received: 0usize, all_prepared: true }));

    assert forall|k: int| 0 <= k < msgs.len() implies ({
        let at_k = feed(opened, #[trigger] msgs.take(k));
        &&& (k < n - 1 ==> (at_k.phase matches Phase::Voting { votes_received, .. }
            && votes_received == k && votes_received + 1 < c.n))
        &&& (k == n - 1 ==> (at_k.phase matches Phase::Voting { votes_received, .. }
            && votes_received + 1 == c.n))
        &&& (n <= k < 2 * n - 1 ==> (at_k.phase matches Phase::Acking { acks_received, .. }
            && acks_received == k - n && acks_received + 1 < c.n))
        &&& (k == 2 * n - 1 ==> (at_k.phase matches Phase::Acking { acks_received, .. }
            && acks_received + 1 == c.n))
        &&& at_k.wf()
        &&& at_k.n == c.n
    }) by {
        if k < n {
            lemma_feed_voting(opened, msgs.take(k), 0, true);
        } else {
            assert(msgs.take(k) =~= msgs.take(n) + msgs.take(k).subrange(n, k));
            lemma_feed_concat(opened, msgs.take(n), msgs.take(k).subrange(n, k));
            lemma_feed_voting(opened, msgs.take(n), 0, true);
            let mid = feed(opened, msgs.take(n));
            lemma_feed_acking(
                mid,
                msgs.take(k).subrange(n, k),
                decision_of(votes_conjunction(msgs.take(n))),
                0,
            );
        }
    }

    assert forall|k: int| 0 <= k < msgs.len() implies ({
        let acts = coordinator_step(feed(opened, #[trigger] msgs.take(k)), msgs[k]).1;
        &&& (k != n - 1 ==> !announces_decision(acts))
        &&& (k == n - 1 ==> announces_decision(acts))
        &&& (k != 2 * n - 1 ==> !reports_to_client(acts))
        &&& (k == 2 * n - 1 ==> reports_to_client(acts))
    }) by {
        let at_k = feed(opened, msgs.take(k));
        let acts = coordinator_step(at_k, msgs[k]).1;
        if k == n - 1 {
            assert(acts.len() == 1);
            assert(acts[0] matches Action::ToParticipants(m) && (m is CommitRequest
                || m is AbortRequest));
        } else if k == 2 * n - 1 {
            assert(acts.len() == 1);
            assert(acts[0] is ToClient);
        } else {
            assert(acts.len() == 0);
        }
    }

    assert(msgs.take(2 * n) =~= msgs);
    assert(msgs =~= msgs.take(n) + msgs.subrange(n, 2 * n));
    lemma_feed_concat(opened, msgs.take(n), msgs.subrange(n, 2 * n));
    lemma_feed_voting(opened, msgs.take(n), 0, true);
    lemma_feed_acking(
        feed(opened, msgs.take(n)),
        msgs.subrange(n, 2 * n),
        decision_of(votes_conjunction(msgs.take(n))),
        0,
    );
}

} // verus!
