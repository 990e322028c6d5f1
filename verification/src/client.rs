//! The client request engine: issue a bounded series of transactions, one at
//! a time, and account for each reply from the coordinator.
//!
//! Sending, receiving and pacing live outside this crate; the functions here
//! build the request to send and classify the reply that came back.

use vstd::prelude::*;

use crate::decimal::{dec_digits, u32_to_decimal};
use crate::message::{generated, MessageType, ProtocolMessage};

verus! {

/// The transaction identifier of a client's `op`-th operation:
/// `<client_id>_op_<op>`.
pub open spec fn txid_of(id: Seq<char>, op: u32) -> Seq<char> {
    id + "_op_"@ + dec_digits(op as nat)
}

/// Client state and accounting for its requests' outcomes.
pub struct Client {
    /// Immutable logical name, `client_<i>`.
    pub id_str: String,
    /// How many requests this client issues in a run.
    pub num_requests: u32,
    /// Replies seen as `ClientResultCommit`.
    pub successful_ops: u32,
    /// Replies seen as `ClientResultAbort`.
    pub failed_ops: u32,
    /// Requests whose outcome was never learned.
    pub unknown_ops: u32,
    /// Monotonically increasing operation index; the next request is
    /// `op + 1`.
    pub op: u32,
}

impl Client {
    /// A fresh client that will issue `n_requests` requests.
    pub fn new(id_str: String, n_requests: u32) -> (c: Client)
        ensures
            c.id_str@ == id_str@,
            c.num_requests == n_requests,
            c.successful_ops == 0,
            c.failed_ops == 0,
            c.unknown_ops == 0,
            c.op == 0,
    {
        Client {
            id_str,
            num_requests: n_requests,
            successful_ops: 0,
            failed_ops: 0,
            unknown_ops: 0,
            op: 0,
        }
    }

    /// Build the next request: step the operation index and return a
    /// `ClientRequest` carrying the fresh transaction id.
    pub fn send_next_operation(&mut self) -> (pm: ProtocolMessage)
        requires
            old(self).op < u32::MAX,
        ensures
            final(self).op == old(self).op + 1,
            final(self).id_str == old(self).id_str,
            final(self).num_requests == old(self).num_requests,
            final(self).successful_ops == old(self).successful_ops,
            final(self).failed_ops == old(self).failed_ops,
            final(self).unknown_ops == old(self).unknown_ops,
            pm@ == generated(
                MessageType::ClientRequest,
                txid_of(old(self).id_str@, (old(self).op + 1) as u32),
                old(self).id_str@,
                (old(self).op + 1) as u32,
            ),
    {
        self.op = self.op + 1;
        let digits = u32_to_decimal(self.op);
        let txid = self.id_str.clone().concat("_op_").concat(digits.as_str());
        ProtocolMessage::generate(MessageType::ClientRequest, txid, self.id_str.clone(), self.op)
    }

    /// Account for one reply from the coordinator. Returns whether the
    /// request loop should keep running: only `CoordinatorExit` stops it.
    /// A commit or abort result is only awaited while a request is
    /// outstanding, so the outcome counters stay below the operation index.
    pub fn recv_result(&mut self, message: &ProtocolMessage) -> (keep_running: bool)
        requires
            old(self).successful_ops + old(self).failed_ops < old(self).op,
        ensures
            final(self).id_str == old(self).id_str,
            final(self).num_requests == old(self).num_requests,
            final(self).unknown_ops == old(self).unknown_ops,
            final(self).op == old(self).op,
            final(self).successful_ops == old(self).successful_ops + (
            if message@.mtype == MessageType::ClientResultCommit {
                1int
            } else {
                0int
            }),
            final(self).failed_ops == old(self).failed_ops + (
            if message@.mtype == MessageType::ClientResultAbort {
                1int
            } else {
                0int
            }),
            keep_running == (message@.mtype != MessageType::CoordinatorExit),
    {
        match message.mtype {
            MessageType::ClientResultCommit => {
                self.successful_ops = self.successful_ops + 1;
                true
            },
            MessageType::ClientResultAbort => {
                self.failed_ops = self.failed_ops + 1;
                true
            },
            MessageType::CoordinatorExit => false,
            _ => true,
        }
    }
}

} // verus!
