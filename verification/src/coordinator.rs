//! The coordinator side of the two-phase-commit protocol: serialize client
//! transactions, fan a proposal out, account for the votes that arrived
//! before the timeout, pick the global decision, and record every step.
//!
//! Channel polling and the idle timeouts live outside this crate: one
//! transaction is driven by `send_prepare_message` (build the proposal to
//! broadcast), then `collect_votes` over whatever vote messages arrived in
//! time, then `decide_transaction` (decision, accounting, log, reply).

use vstd::prelude::*;

use crate::message::{
    generated, is_vote, views_of, MessageType, MessageView, ProtocolMessage, RequestStatus,
};
use crate::oplog::OpLog;
use crate::text::str_eq;

verus! {

broadcast use vstd::seq_lib::group_filter_ensures;

/// States of the coordinator state machine.
#[derive(Clone, Copy, Debug, PartialEq, Eq, Structural)]
pub enum CoordinatorState {
    Quiescent,
    ReceivedRequest,
    ProposalSent,
    ReceivedVotesAbort,
    ReceivedVotesCommit,
    SentGlobalDecision,
}

/// Mathematical value of a coordinator.
pub struct CoordinatorView {
    pub state: CoordinatorState,
    pub log: Seq<MessageView>,
    pub num_request: u32,
    pub participants: Seq<Seq<char>>,
    pub clients: Seq<Seq<char>>,
    pub global_commit: u32,
    pub global_abort: u32,
    pub commit: u32,
    pub abort: u32,
    pub unknown: u32,
}

/// Coordinator state: state machine position, operation log, registered
/// children, and aggregate accounting.
pub struct Coordinator {
    state: CoordinatorState,
    log: OpLog,
    num_request: u32,
    participants: Vec<String>,
    clients: Vec<String>,
    global_commit: u32,
    global_abort: u32,
    commit: u32,
    abort: u32,
    unknown: u32,
}

/// The names of a sequence of registered children.
pub open spec fn names_of(s: Seq<String>) -> Seq<Seq<char>> {
    s.map_values(|x: String| x@)
}

/// The vote messages among what arrived, in arrival order.
pub open spec fn votes_in(s: Seq<MessageView>) -> Seq<MessageView> {
    s.filter(|m: MessageView| is_vote(m.mtype))
}

/// How many commit votes arrived.
pub open spec fn commit_votes_in(s: Seq<MessageView>) -> nat {
    s.filter(|m: MessageView| m.mtype == MessageType::ParticipantVoteCommit).len()
}

/// How many abort votes arrived.
pub open spec fn abort_votes_in(s: Seq<MessageView>) -> nat {
    s.filter(|m: MessageView| m.mtype == MessageType::ParticipantVoteAbort).len()
}

/// The log records of the accepted votes, in arrival order, each with its
/// true vote kind.
pub open spec fn vote_log_entries(s: Seq<MessageView>) -> Seq<MessageView> {
    votes_in(s).map_values(|m: MessageView| generated(m.mtype, m.txid, m.senderid, m.opid))
}

/// A sequence of accepted votes whose status is still `Unknown` is logged as
/// itself: each record keeps the vote's kind and identity.
pub proof fn lemma_vote_log_entries_identity(s: Seq<MessageView>)
    requires
        votes_in(s) == s,
        forall|i: int| 0 <= i < s.len() ==> #[trigger] s[i].reqstatus == RequestStatus::Unknown,
    ensures
        vote_log_entries(s) == s,
{
    assert forall|i: int| 0 <= i < s.len() implies #[trigger] vote_log_entries(s)[i] == s[i] by {
        assert(vote_log_entries(s)[i] == generated(s[i].mtype, s[i].txid, s[i].senderid, s[i].opid));
        assert(generated(s[i].mtype, s[i].txid, s[i].senderid, s[i].opid) =~= s[i]);
    }
    assert(vote_log_entries(s) =~= s);
}

/// The global decision rule: commit exactly when every accepted vote is a
/// commit vote. A missing vote has been turned into a synthetic abort vote
/// before this is asked.
pub open spec fn all_commit(votes: Seq<MessageType>) -> bool {
    forall|i: int| 0 <= i < votes.len() ==> votes[i] == MessageType::ParticipantVoteCommit
}

/// The record appended when the vote timeout fires: a synthetic abort vote
/// from no participant in particular.
pub open spec fn synthetic_abort_entry() -> MessageView {
    generated(MessageType::ParticipantVoteAbort, "None"@, "None"@, 0)
}

/// What one decided transaction hands back for dispatch: the decision to
/// broadcast to every participant, the result for the originating client,
/// and whether that client is registered at all.
pub struct TransactionOutcome {
    pub decision_msg: ProtocolMessage,
    pub client_msg: ProtocolMessage,
    pub client_known: bool,
}

impl View for Coordinator {
    type V = CoordinatorView;

    closed spec fn view(&self) -> CoordinatorView {
        CoordinatorView {
            state: self.state,
            log: self.log@,
            num_request: self.num_request,
            participants: names_of(self.participants@),
            clients: names_of(self.clients@),
            global_commit: self.global_commit,
            global_abort: self.global_abort,
            commit: self.commit,
            abort: self.abort,
            unknown: self.unknown,
        }
    }
}

impl Coordinator {
    /// A fresh, quiescent coordinator with no children registered.
    pub fn new(num_request: u32) -> (c: Coordinator)
        ensures
            c@ == (CoordinatorView {
                state: CoordinatorState::Quiescent,
                log: Seq::<MessageView>::empty(),
                num_request,
                participants: Seq::<Seq<char>>::empty(),
                clients: Seq::<Seq<char>>::empty(),
                global_commit: 0,
                global_abort: 0,
                commit: 0,
                abort: 0,
                unknown: 0,
            }),
    {
        let c = Coordinator {
            state: CoordinatorState::Quiescent,
            log: OpLog::new(),
            num_request,
            participants: Vec::new(),
            clients: Vec::new(),
            global_commit: 0,
            global_abort: 0,
            commit: 0,
            abort: 0,
            unknown: 0,
        };
        proof {
            assert(names_of(c.participants@) =~= Seq::<Seq<char>>::empty());
            assert(names_of(c.clients@) =~= Seq::<Seq<char>>::empty());
        }
        c
    }

    /// The coordinator's operation log.
    pub fn log(&self) -> (l: &OpLog)
        ensures
            l@ == self@.log,
    {
        &self.log
    }

    /// The aggregate accounting
    /// `(global_commit, global_abort, commit, abort, unknown)`.
    pub fn counters(&self) -> (c: (u32, u32, u32, u32, u32))
        ensures
            c.0 == self@.global_commit,
            c.1 == self@.global_abort,
            c.2 == self@.commit,
            c.3 == self@.abort,
            c.4 == self@.unknown,
    {
        (self.global_commit, self.global_abort, self.commit, self.abort, self.unknown)
    }

    /// How many participants are registered.
    pub fn num_participants(&self) -> (n: usize)
        ensures
            n == self@.participants.len(),
    {
        self.participants.len()
    }

    /// Register a participant by name. Only legal between transactions.
    pub fn participant_join(&mut self, name: &String)
        requires
            old(self)@.state == CoordinatorState::Quiescent,
        ensures
            final(self)@ == (CoordinatorView {
                participants: old(self)@.participants.push(name@),
                ..old(self)@
            }),
    {
        self.participants.push(name.clone());
        proof {
            assert(names_of(self.participants@) =~= names_of(old(self).participants@).push(name@));
        }
    }

    /// Register a client by name. Only legal between transactions.
    pub fn client_join(&mut self, name: &String)
        requires
            old(self)@.state == CoordinatorState::Quiescent,
        ensures
            final(self)@ == (CoordinatorView {
                clients: old(self)@.clients.push(name@),
                ..old(self)@
            }),
    {
        self.clients.push(name.clone());
        proof {
            assert(names_of(self.clients@) =~= names_of(old(self).clients@).push(name@));
        }
    }

    /// Whether a client of this name is registered.
    pub fn has_client(&self, name: &String) -> (r: bool)
        ensures
            r == self@.clients.contains(name@),
    {
        let mut i: usize = 0;
        while i < self.clients.len()
            invariant
                0 <= i <= self.clients@.len(),
                forall|j: int| 0 <= j < i ==> names_of(self.clients@)[j] != name@,
            decreases self.clients@.len() - i,
        {
            let c: &String = &self.clients[i];
            if str_eq(c.as_str(), name.as_str()) {
                proof {
                    assert(self@.clients[i as int] == name@);
                }
                return true;
            }
            i = i + 1;
        }
        proof {
            assert(forall|j: int| 0 <= j < self@.clients.len() ==> self@.clients[j] != name@);
        }
        false
    }

    /// Begin a transaction for the given client request: build the proposal
    /// to broadcast to every participant, reusing the request's transaction
    /// id, sender and operation index.
    pub fn send_prepare_message(&mut self, pm: &ProtocolMessage) -> (prop: ProtocolMessage)
        requires
            old(self)@.state == CoordinatorState::Quiescent,
        ensures
            prop@ == generated(MessageType::CoordinatorPropose, pm@.txid, pm@.senderid, pm@.opid),
            final(self)@ == (CoordinatorView {
                state: CoordinatorState::ProposalSent,
                ..old(self)@
            }),
    {
        self.state = CoordinatorState::ReceivedRequest;
        let prop = ProtocolMessage::generate(
            MessageType::CoordinatorPropose,
            pm.txid.clone(),
            pm.senderid.clone(),
            pm.opid,
        );
        self.state = CoordinatorState::ProposalSent;
        prop
    }

    /// Account for the votes that arrived before the idle timeout: each vote
    /// message is accepted, counted and logged with its true kind; anything
    /// else that arrived is ignored. If fewer votes arrived than there are
    /// participants, the missing vote counts as a synthetic abort vote: one
    /// unknown is counted and one abort record with no sender is logged.
    /// Returns the accepted votes, synthetic abort included.
    pub fn collect_votes(&mut self, arrived: &Vec<ProtocolMessage>) -> (votes: Vec<MessageType>)
        requires
            old(self)@.state == CoordinatorState::ProposalSent,
            old(self)@.commit + arrived@.len() <= u32::MAX,
            old(self)@.abort + arrived@.len() <= u32::MAX,
            old(self)@.unknown < u32::MAX,
        ensures
            ({
                let av = views_of(arrived@);
                let timeout = votes_in(av).len() < old(self)@.participants.len();
                &&& votes@ == votes_in(av).map_values(|m: MessageView| m.mtype) + (
                if timeout {
                    seq![MessageType::ParticipantVoteAbort]
                } else {
                    Seq::<MessageType>::empty()
                })
                &&& final(self)@ == (CoordinatorView {
                    state: if all_commit(votes@) {
                        CoordinatorState::ReceivedVotesCommit
                    } else {
                        CoordinatorState::ReceivedVotesAbort
                    },
                    log: old(self)@.log + vote_log_entries(av) + (
                    if timeout {
                        seq![synthetic_abort_entry()]
                    } else {
                        Seq::<MessageView>::empty()
                    }),
                    commit: (old(self)@.commit + commit_votes_in(av)) as u32,
                    abort: (old(self)@.abort + abort_votes_in(av)) as u32,
                    unknown: if timeout {
                        (old(self)@.unknown + 1) as u32
                    } else {
                        old(self)@.unknown
                    },
                    ..old(self)@
                })
            }),
    {
        let ghost av = views_of(arrived@);
        let mut votes: Vec<MessageType> = Vec::new();
        let mut any_abort: bool = false;
        let mut i: usize = 0;
        proof {
            assert(av.take(0) =~= Seq::<MessageView>::empty());
            reveal(Seq::filter);
        }
        while i < arrived.len()
            invariant
                0 <= i <= arrived@.len(),
                av == views_of(arrived@),
                av.len() == arrived@.len(),
                old(self)@.commit + arrived@.len() <= u32::MAX,
                old(self)@.abort + arrived@.len() <= u32::MAX,
                votes@ == votes_in(av.take(i as int)).map_values(|m: MessageView| m.mtype),
                any_abort == !all_commit(votes@),
                self.commit == old(self)@.commit + commit_votes_in(av.take(i as int)),
                self.abort == old(self)@.abort + abort_votes_in(av.take(i as int)),
                self.log@ == old(self)@.log + vote_log_entries(av.take(i as int)),
                self.state == old(self).state,
                self.num_request == old(self).num_request,
                self.participants@ == old(self).participants@,
                self.clients@ == old(self).clients@,
                self.global_commit == old(self).global_commit,
                self.global_abort == old(self).global_abort,
                self.unknown == old(self).unknown,
            decreases arrived@.len() - i,
        {
            let m = &arrived[i];
            let ghost prefix = av.take(i as int);
            proof {
                reveal(Seq::filter);
                assert(av.take(i + 1).drop_last() =~= prefix);
                assert(av.take(i + 1).last() == av[i as int]);
                assert(av[i as int] == arrived@[i as int]@);
                assert(commit_votes_in(prefix) <= prefix.len());
                assert(abort_votes_in(prefix) <= prefix.len());
            }
            if m.mtype == MessageType::ParticipantVoteCommit || m.mtype
                == MessageType::ParticipantVoteAbort {
                votes.push(m.mtype);
                if m.mtype == MessageType::ParticipantVoteCommit {
                    self.commit = self.commit + 1;
                } else {
                    self.abort = self.abort + 1;
                    any_abort = true;
                }
                self.log.append(m.mtype, m.txid.clone(), m.senderid.clone(), m.opid);
                proof {
                    let step = av.take(i + 1);
                    assert(votes_in(step) =~= votes_in(prefix).push(av[i as int]));
                    if av[i as int].mtype == MessageType::ParticipantVoteCommit {
                        assert(commit_votes_in(step) == commit_votes_in(prefix) + 1);
                        assert(abort_votes_in(step) == abort_votes_in(prefix));
                    } else {
                        assert(commit_votes_in(step) == commit_votes_in(prefix));
                        assert(abort_votes_in(step) == abort_votes_in(prefix) + 1);
                    }
                    assert(votes_in(step).map_values(|mm: MessageView| mm.mtype) =~= votes_in(
                        prefix,
                    ).map_values(|mm: MessageView| mm.mtype).push(av[i as int].mtype));
                    assert(vote_log_entries(step) =~= vote_log_entries(prefix).push(
                        generated(
                            av[i as int].mtype,
                            av[i as int].txid,
                            av[i as int].senderid,
                            av[i as int].opid,
                        ),
                    ));
                    assert(self.log@ =~= old(self)@.log + vote_log_entries(step));
                    if av[i as int].mtype == MessageType::ParticipantVoteCommit {
                        let prev = votes_in(prefix).map_values(|mm: MessageView| mm.mtype);
                        assert(votes@ =~= prev.push(MessageType::ParticipantVoteCommit));
                        assert(all_commit(votes@) <==> all_commit(prev)) by {
                            if all_commit(prev) {
                                assert forall|j: int| 0 <= j < votes@.len() implies votes@[j]
                                    == MessageType::ParticipantVoteCommit by {
                                    if j < prev.len() {
                                        assert(prev[j] == MessageType::ParticipantVoteCommit);
                                    }
                                }
                            } else {
                                let j = choose|j: int|
                                    !(0 <= j < prev.len() ==> prev[j]
                                        == MessageType::ParticipantVoteCommit);
                                assert(votes@[j] != MessageType::ParticipantVoteCommit);
                            }
                        }
                    } else {
                        assert(votes@.last() == MessageType::ParticipantVoteAbort);
                        assert(!all_commit(votes@));
                    }
                }
            } else {
                proof {
                    let step = av.take(i + 1);
                    assert(votes_in(step) =~= votes_in(prefix));
                    assert(commit_votes_in(step) == commit_votes_in(prefix));
                    assert(abort_votes_in(step) == abort_votes_in(prefix));
                    assert(vote_log_entries(step) =~= vote_log_entries(prefix));
                }
            }
            i = i + 1;
        }
        proof {
            assert(av.take(arrived@.len() as int) =~= av);
        }
        if votes.len() < self.participants.len() {
            votes.push(MessageType::ParticipantVoteAbort);
            any_abort = true;
            self.unknown = self.unknown + 1;
            self.log.append(
                MessageType::ParticipantVoteAbort,
                String::from_str("None"),
                String::from_str("None"),
                0,
            );
            proof {
                assert(votes@.last() == MessageType::ParticipantVoteAbort);
                assert(!all_commit(votes@));
                assert(self.log@ =~= old(self)@.log + vote_log_entries(av) + seq![
                    synthetic_abort_entry(),
                ]);
                assert(votes@ =~= votes_in(av).map_values(|m: MessageView| m.mtype) + seq![
                    MessageType::ParticipantVoteAbort,
                ]);
            }
        } else {
            proof {
                assert(votes@ =~= votes_in(av).map_values(|m: MessageView| m.mtype)
                    + Seq::<MessageType>::empty());
                assert(self.log@ =~= old(self)@.log + vote_log_entries(av)
                    + Seq::<MessageView>::empty());
            }
        }
        if any_abort {
            self.state = CoordinatorState::ReceivedVotesAbort;
        } else {
            self.state = CoordinatorState::ReceivedVotesCommit;
        }
        votes
    }

    /// Record the global decision for broadcast: append it to the operation
    /// log before any participant can observe it.
    pub fn send_decision_message(&mut self, decision: ProtocolMessage)
        ensures
            final(self)@ == (CoordinatorView {
                log: old(self)@.log.push(
                    generated(
                        decision@.mtype,
                        decision@.txid,
                        decision@.senderid,
                        decision@.opid,
                    ),
                ),
                ..old(self)@
            }),
    {
        self.log.append(decision.mtype, decision.txid, decision.senderid, decision.opid);
    }

    /// Close a transaction: commit exactly when every accepted vote was a
    /// commit vote, account for the global outcome, log the decision before
    /// it becomes observable, and build the decision broadcast and the
    /// client's result message.
    pub fn decide_transaction(
        &mut self,
        message: &ProtocolMessage,
        votes: &Vec<MessageType>,
    ) -> (r: TransactionOutcome)
        requires
            old(self)@.state == CoordinatorState::ReceivedVotesCommit || old(self)@.state
                == CoordinatorState::ReceivedVotesAbort,
            old(self)@.global_commit < u32::MAX,
            old(self)@.global_abort < u32::MAX,
        ensures
            ({
                let commit = all_commit(votes@);
                let dkind = if commit {
                    MessageType::CoordinatorCommit
                } else {
                    MessageType::CoordinatorAbort
                };
                let ckind = if commit {
                    MessageType::ClientResultCommit
                } else {
                    MessageType::ClientResultAbort
                };
                &&& r.decision_msg@ == (MessageView { mtype: dkind, ..message@ })
                &&& r.client_msg@ == (MessageView { mtype: ckind, ..message@ })
                &&& r.client_known == old(self)@.clients.contains(message@.senderid)
                &&& final(self)@ == (CoordinatorView {
                    state: CoordinatorState::Quiescent,
                    log: old(self)@.log.push(
                        generated(dkind, message@.txid, message@.senderid, message@.opid),
                    ),
                    global_commit: if commit {
                        (old(self)@.global_commit + 1) as u32
                    } else {
                        old(self)@.global_commit
                    },
                    global_abort: if commit {
                        old(self)@.global_abort
                    } else {
                        (old(self)@.global_abort + 1) as u32
                    },
                    ..old(self)@
                })
            }),
    {
        let mut commit: bool = true;
        let mut i: usize = 0;
        while i < votes.len()
            invariant
                0 <= i <= votes@.len(),
                commit == all_commit(votes@.take(i as int)),
            decreases votes@.len() - i,
        {
            proof {
                assert(votes@.take(i + 1).drop_last() =~= votes@.take(i as int));
            }
            if votes[i] != MessageType::ParticipantVoteCommit {
                proof {
                    assert(votes@.take(i + 1)[i as int] != MessageType::ParticipantVoteCommit);
                }
                commit = false;
            }
            i = i + 1;
        }
        proof {
            assert(votes@.take(votes@.len() as int) =~= votes@);
        }
        let dkind = if commit {
            self.global_commit = self.global_commit + 1;
            MessageType::CoordinatorCommit
        } else {
            self.global_abort = self.global_abort + 1;
            MessageType::CoordinatorAbort
        };
        let ckind = if commit {
            MessageType::ClientResultCommit
        } else {
            MessageType::ClientResultAbort
        };
        self.state = CoordinatorState::SentGlobalDecision;
        let decision_msg = ProtocolMessage {
            mtype: dkind,
            txid: message.txid.clone(),
            senderid: message.senderid.clone(),
            opid: message.opid,
            reqstatus: message.reqstatus,
        };
        let for_log = ProtocolMessage {
            mtype: dkind,
            txid: message.txid.clone(),
            senderid: message.senderid.clone(),
            opid: message.opid,
            reqstatus: message.reqstatus,
        };
        self.send_decision_message(for_log);
        let client_msg = ProtocolMessage {
            mtype: ckind,
            txid: message.txid.clone(),
            senderid: message.senderid.clone(),
            opid: message.opid,
            reqstatus: message.reqstatus,
        };
        let client_known = self.has_client(&message.senderid);
        self.state = CoordinatorState::Quiescent;
        TransactionOutcome { decision_msg, client_msg, client_known }
    }

    /// The shutdown broadcast for every participant.
    pub fn send_exit_message(&mut self) -> (m: ProtocolMessage)
        ensures
            m@ == generated(MessageType::CoordinatorExit, "exit"@, "exit"@, 0),
            final(self)@ == old(self)@,
    {
        ProtocolMessage::generate(
            MessageType::CoordinatorExit,
            String::from_str("exit"),
            String::from_str("exit"),
            0,
        )
    }
}

} // verus!
