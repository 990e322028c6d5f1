//! The participant side of the two-phase-commit protocol: vote on a proposal
//! under an injected operation outcome, apply the global decision, and record
//! every step in the operation log.
//!
//! Whether the simulated local operation succeeds and whether an outbound
//! vote reaches the wire are decided outside this crate (by probability
//! draws); each handler takes those outcomes as booleans and is verified for
//! both values of each.

use vstd::prelude::*;

use crate::message::{generated, MessageType, MessageView, ProtocolMessage};
use crate::oplog::OpLog;

verus! {

/// States of the participant state machine.
#[derive(Clone, Copy, Debug, PartialEq, Eq, Structural)]
pub enum ParticipantState {
    Quiescent,
    ReceivedP1,
    VotedAbort,
    VotedCommit,
    AwaitingGlobalDecision,
}

/// What the protocol loop should do after one incoming message.
pub enum ParticipantAction {
    /// A proposal was handled; transmit the vote if it is `Some` (a `None`
    /// vote was dropped by the send-failure draw).
    Vote(Option<ProtocolMessage>),
    /// Keep receiving.
    Continue,
    /// Leave the receive loop.
    Exit,
}

/// Mathematical value of a participant.
pub struct ParticipantView {
    pub id: Seq<char>,
    pub state: ParticipantState,
    pub log: Seq<MessageView>,
    pub commit: u32,
    pub abort: u32,
    pub unknown: u32,
}

/// Per-participant protocol state: identity, state machine position,
/// operation log and vote accounting.
pub struct Participant {
    id_str: String,
    state: ParticipantState,
    log: OpLog,
    commit: u32,
    abort: u32,
    unknown: u32,
}

impl View for Participant {
    type V = ParticipantView;

    closed spec fn view(&self) -> ParticipantView {
        ParticipantView {
            id: self.id_str@,
            state: self.state,
            log: self.log@,
            commit: self.commit,
            abort: self.abort,
            unknown: self.unknown,
        }
    }
}

/// The vote a participant casts when its local operation succeeds or fails.
pub open spec fn vote_kind(op_success: bool) -> MessageType {
    if op_success {
        MessageType::ParticipantVoteCommit
    } else {
        MessageType::ParticipantVoteAbort
    }
}

impl Participant {
    /// A fresh participant, quiescent, with an empty log and zero counters.
    pub fn new(id_str: String) -> (p: Participant)
        ensures
            p@ == (ParticipantView {
                id: id_str@,
                state: ParticipantState::Quiescent,
                log: Seq::<MessageView>::empty(),
                commit: 0,
                abort: 0,
                unknown: 0,
            }),
    {
        Participant {
            id_str,
            state: ParticipantState::Quiescent,
            log: OpLog::new(),
            commit: 0,
            abort: 0,
            unknown: 0,
        }
    }

    /// The participant's operation log.
    pub fn log(&self) -> (l: &OpLog)
        ensures
            l@ == self@.log,
    {
        &self.log
    }

    /// The vote accounting `(commit, abort, unknown)` reported on exit.
    pub fn counters(&self) -> (c: (u32, u32, u32))
        ensures
            c.0 == self@.commit,
            c.1 == self@.abort,
            c.2 == self@.unknown,
    {
        (self.commit, self.abort, self.unknown)
    }

    /// Perform the proposed operation with the given outcome: log the
    /// corresponding vote and report whether the operation succeeded. With no
    /// request in hand, do nothing and report failure.
    pub fn perform_operation(
        &mut self,
        request_option: Option<&ProtocolMessage>,
        op_success: bool,
    ) -> (r: bool)
        ensures
            match request_option {
                Some(msg) => {
                    &&& r == op_success
                    &&& final(self)@ == (ParticipantView {
                        log: old(self)@.log.push(
                            generated(vote_kind(op_success), msg.txid@, msg.senderid@, msg.opid),
                        ),
                        ..old(self)@
                    })
                },
                None => r == false && final(self)@ == old(self)@,
            },
    {
        match request_option {
            Some(message) => {
                let kind = if op_success {
                    MessageType::ParticipantVoteCommit
                } else {
                    MessageType::ParticipantVoteAbort
                };
                self.log.append(
                    kind,
                    message.txid.clone(),
                    message.senderid.clone(),
                    message.opid,
                );
                op_success
            },
            None => false,
        }
    }

    /// Send a vote to the coordinator under the given send outcome: rewrite
    /// the sender to this participant's own id, then either hand the message
    /// back for transmission and count the vote, or drop it and count an
    /// unknown.
    pub fn send(&mut self, pm: ProtocolMessage, send_success: bool) -> (r: Option<ProtocolMessage>)
        requires
            old(self)@.commit < u32::MAX,
            old(self)@.abort < u32::MAX,
            old(self)@.unknown < u32::MAX,
        ensures
            if send_success {
                &&& (r matches Some(out) && out@ == (MessageView {
                    senderid: old(self)@.id,
                    ..pm@
                }))
                &&& final(self)@ == (ParticipantView {
                    commit: if pm@.mtype == MessageType::ParticipantVoteCommit {
                        (old(self)@.commit + 1) as u32
                    } else {
                        old(self)@.commit
                    },
                    abort: if pm@.mtype != MessageType::ParticipantVoteCommit {
                        (old(self)@.abort + 1) as u32
                    } else {
                        old(self)@.abort
                    },
                    ..old(self)@
                })
            } else {
                &&& r is None
                &&& final(self)@ == (ParticipantView {
                    unknown: (old(self)@.unknown + 1) as u32,
                    ..old(self)@
                })
            },
    {
        let mut mes = pm;
        mes.senderid = self.id_str.clone();
        if send_success {
            if mes.mtype == MessageType::ParticipantVoteCommit {
                self.commit = self.commit + 1;
            } else {
                self.abort = self.abort + 1;
            }
            Some(mes)
        } else {
            self.unknown = self.unknown + 1;
            None
        }
    }

    /// Handle one message from the coordinator: vote on a proposal, record a
    /// global decision, or leave on exit. Every message is appended to the
    /// log; a proposal additionally logs the vote it provoked before the
    /// proposal itself.
    pub fn handle_message(
        &mut self,
        msg: &ProtocolMessage,
        op_success: bool,
        send_success: bool,
    ) -> (r: ParticipantAction)
        requires
            msg@.mtype == MessageType::CoordinatorPropose ==> {
                &&& old(self)@.commit < u32::MAX
                &&& old(self)@.abort < u32::MAX
                &&& old(self)@.unknown < u32::MAX
            },
        ensures
            final(self)@.id == old(self)@.id,
            msg@.mtype == MessageType::CoordinatorPropose ==> {
                let vote = vote_kind(op_success);
                let vote_entry = generated(vote, msg.txid@, msg.senderid@, msg.opid);
                let propose_entry = generated(
                    MessageType::CoordinatorPropose,
                    msg.txid@,
                    msg.senderid@,
                    msg.opid,
                );
                &&& final(self)@.state == ParticipantState::AwaitingGlobalDecision
                &&& final(self)@.log == old(self)@.log.push(vote_entry).push(propose_entry)
                &&& (r matches ParticipantAction::Vote(out) && (send_success ==> (out matches Some(
                    v,
                ) && v@ == generated(vote, msg.txid@, old(self)@.id, msg.opid))) && (!send_success
                    ==> out is None))
                &&& final(self)@.commit == old(self)@.commit + (
                if send_success && op_success {
                    1int
                } else {
                    0int
                })
                &&& final(self)@.abort == old(self)@.abort + (
                if send_success && !op_success {
                    1int
                } else {
                    0int
                })
                &&& final(self)@.unknown == old(self)@.unknown + (
                if !send_success {
                    1int
                } else {
                    0int
                })
            },
            (msg@.mtype == MessageType::CoordinatorCommit || msg@.mtype
                == MessageType::CoordinatorAbort) ==> {
                &&& final(self)@ == (ParticipantView {
                    state: ParticipantState::Quiescent,
                    log: old(self)@.log.push(
                        generated(msg@.mtype, msg.txid@, msg.senderid@, msg.opid),
                    ),
                    ..old(self)@
                })
                &&& r is Continue
            },
            msg@.mtype == MessageType::CoordinatorExit ==> {
                &&& final(self)@ == (ParticipantView {
                    log: old(self)@.log.push(
                        generated(msg@.mtype, msg.txid@, msg.senderid@, msg.opid),
                    ),
                    ..old(self)@
                })
                &&& r is Exit
            },
            !(msg@.mtype == MessageType::CoordinatorPropose || msg@.mtype
                == MessageType::CoordinatorCommit || msg@.mtype == MessageType::CoordinatorAbort
                || msg@.mtype == MessageType::CoordinatorExit) ==> {
                &&& final(self)@ == (ParticipantView {
                    log: old(self)@.log.push(
                        generated(msg@.mtype, msg.txid@, msg.senderid@, msg.opid),
                    ),
                    ..old(self)@
                })
                &&& r is Continue
            },
    {
        match msg.mtype {
            MessageType::CoordinatorPropose => {
                self.state = ParticipantState::ReceivedP1;
                let success = self.perform_operation(Some(msg), op_success);
                let vote = if success {
                    self.state = ParticipantState::VotedCommit;
                    MessageType::ParticipantVoteCommit
                } else {
                    self.state = ParticipantState::VotedAbort;
                    MessageType::ParticipantVoteAbort
                };
                let mes = ProtocolMessage::generate(
                    vote,
                    msg.txid.clone(),
                    msg.senderid.clone(),
                    msg.opid,
                );
                let out = self.send(mes, send_success);
                self.state = ParticipantState::AwaitingGlobalDecision;
                self.log.append(
                    MessageType::CoordinatorPropose,
                    msg.txid.clone(),
                    msg.senderid.clone(),
                    msg.opid,
                );
                ParticipantAction::Vote(out)
            },
            MessageType::CoordinatorCommit => {
                self.log.append(msg.mtype, msg.txid.clone(), msg.senderid.clone(), msg.opid);
                self.state = ParticipantState::Quiescent;
                ParticipantAction::Continue
            },
            MessageType::CoordinatorAbort => {
                self.log.append(msg.mtype, msg.txid.clone(), msg.senderid.clone(), msg.opid);
                self.state = ParticipantState::Quiescent;
                ParticipantAction::Continue
            },
            MessageType::CoordinatorExit => {
                self.log.append(msg.mtype, msg.txid.clone(), msg.senderid.clone(), msg.opid);
                ParticipantAction::Exit
            },
            _ => {
                self.log.append(msg.mtype, msg.txid.clone(), msg.senderid.clone(), msg.opid);
                ParticipantAction::Continue
            },
        }
    }
}

} // verus!
