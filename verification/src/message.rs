//! The protocol message exchanged on every channel of the two-phase-commit
//! simulator, together with its mathematical view.

use vstd::prelude::*;

verus! {

/// The nine legal message kinds. Any other value read from a log line is a
/// format error.
#[derive(Clone, Copy, Debug, PartialEq, Eq, Structural)]
pub enum MessageType {
    ClientRequest,
    ClientResultCommit,
    ClientResultAbort,
    CoordinatorPropose,
    CoordinatorCommit,
    CoordinatorAbort,
    CoordinatorExit,
    ParticipantVoteCommit,
    ParticipantVoteAbort,
}

/// Informational request status carried by every message.
#[derive(Clone, Copy, Debug, PartialEq, Eq, Structural)]
pub enum RequestStatus {
    Unknown,
    Committed,
    Aborted,
}

/// The sole payload on every channel and in every log record.
#[derive(Debug, Clone)]
pub struct ProtocolMessage {
    pub mtype: MessageType,
    pub txid: String,
    pub senderid: String,
    pub opid: u32,
    pub reqstatus: RequestStatus,
}

/// Mathematical value of a `ProtocolMessage`: the same fields with strings
/// abstracted to character sequences.
#[verifier::ext_equal]
pub struct MessageView {
    pub mtype: MessageType,
    pub txid: Seq<char>,
    pub senderid: Seq<char>,
    pub opid: u32,
    pub reqstatus: RequestStatus,
}

impl View for ProtocolMessage {
    type V = MessageView;

    open spec fn view(&self) -> MessageView {
        MessageView {
            mtype: self.mtype,
            txid: self.txid@,
            senderid: self.senderid@,
            opid: self.opid,
            reqstatus: self.reqstatus,
        }
    }
}

/// The message `generate` constructs: the given fields with status `Unknown`.
pub open spec fn generated(
    mtype: MessageType,
    txid: Seq<char>,
    senderid: Seq<char>,
    opid: u32,
) -> MessageView {
    MessageView { mtype, txid, senderid, opid, reqstatus: RequestStatus::Unknown }
}

/// The mathematical values of a sequence of messages.
pub open spec fn views_of(s: Seq<ProtocolMessage>) -> Seq<MessageView> {
    s.map_values(|m: ProtocolMessage| m@)
}

/// True of the two vote kinds a participant may emit.
pub open spec fn is_vote(m: MessageType) -> bool {
    m == MessageType::ParticipantVoteCommit || m == MessageType::ParticipantVoteAbort
}

/// True of the two global decisions the coordinator may record.
pub open spec fn is_decision(m: MessageType) -> bool {
    m == MessageType::CoordinatorCommit || m == MessageType::CoordinatorAbort
}

impl ProtocolMessage {
    /// The sole constructor: sets `reqstatus = Unknown` and copies the rest.
    pub fn generate(mtype: MessageType, txid: String, senderid: String, opid: u32) -> (r:
        ProtocolMessage)
        ensures
            r@ == generated(mtype, txid@, senderid@, opid),
    {
        ProtocolMessage { mtype, txid, senderid, opid, reqstatus: RequestStatus::Unknown }
    }
}

} // verus!
