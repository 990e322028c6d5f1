//! A deterministic, in-process composition of the three state machines: one
//! coordinator, a row of participants and one client at a time, with every
//! probability draw replaced by a given boolean outcome. The multi-process
//! runtime drives the same machines over real channels; this composition is
//! what the protocol's accounting laws are proved about.

use vstd::pervasive::VecAdditionalExecFns;
use vstd::prelude::*;

use crate::client::{txid_of, Client};
use crate::decimal::{
    char_to_digit, dec_digits, is_digit, lemma_dec_digits, lemma_dec_digits_injective,
    u32_to_decimal,
};
use crate::coordinator::{
    abort_votes_in, all_commit, commit_votes_in, synthetic_abort_entry, vote_log_entries, votes_in,
    Coordinator, CoordinatorState, CoordinatorView,
};
use crate::checker::{decision_consistent, decision_count, has_vote_for, log_has, unique_decision};
use crate::message::{
    generated, is_decision, is_vote, views_of, MessageType, MessageView, ProtocolMessage,
    RequestStatus,
};
use crate::participant::{vote_kind, Participant, ParticipantAction, ParticipantState, ParticipantView};

verus! {

broadcast use vstd::seq_lib::group_filter_ensures;

/// How many of the first `upto` participants got their vote onto the wire.
pub open spec fn count_sent(sends: Seq<bool>, upto: int) -> nat
    decreases upto,
{
    if upto <= 0 {
        0
    } else {
        count_sent(sends, upto - 1) + (if sends[upto - 1] {
            1nat
        } else {
            0
        })
    }
}

/// How many of the first `upto` participants delivered a commit vote.
pub open spec fn count_commit_votes(ops: Seq<bool>, sends: Seq<bool>, upto: int) -> nat
    decreases upto,
{
    if upto <= 0 {
        0
    } else {
        count_commit_votes(ops, sends, upto - 1) + (if sends[upto - 1] && ops[upto - 1] {
            1nat
        } else {
            0
        })
    }
}

/// How many of the first `upto` participants delivered an abort vote.
pub open spec fn count_abort_votes(ops: Seq<bool>, sends: Seq<bool>, upto: int) -> nat
    decreases upto,
{
    if upto <= 0 {
        0
    } else {
        count_abort_votes(ops, sends, upto - 1) + (if sends[upto - 1] && !ops[upto - 1] {
            1nat
        } else {
            0
        })
    }
}

/// The global decision of one transaction under these outcomes: commit
/// exactly when every participant's operation succeeded and every vote
/// reached the wire.
pub open spec fn tx_commits(ops: Seq<bool>, sends: Seq<bool>, upto: int) -> bool {
    forall|q: int| #![auto] 0 <= q < upto ==> sends[q] && ops[q]
}

/// Every message in the sequence is a commit vote.
pub open spec fn all_votes_commit(s: Seq<MessageView>) -> bool {
    forall|i: int| 0 <= i < s.len() ==> #[trigger] s[i].mtype == MessageType::ParticipantVoteCommit
}

/// One more vote arriving: the vote filters and counts each grow by that
/// vote, and the arrivals stay all-commit exactly while commit votes arrive.
pub proof fn lemma_vote_step(av: Seq<MessageView>, v: MessageView)
    requires
        votes_in(av) == av,
        crate::message::is_vote(v.mtype),
    ensures
        votes_in(av.push(v)) == av.push(v),
        commit_votes_in(av.push(v)) == commit_votes_in(av) + (
        if v.mtype == MessageType::ParticipantVoteCommit {
            1int
        } else {
            0
        }),
        abort_votes_in(av.push(v)) == abort_votes_in(av) + (
        if v.mtype == MessageType::ParticipantVoteAbort {
            1int
        } else {
            0
        }),
        all_votes_commit(av.push(v)) <==> (all_votes_commit(av) && v.mtype
            == MessageType::ParticipantVoteCommit),
{
    reveal(Seq::filter);
    let av2 = av.push(v);
    assert(av2.drop_last() =~= av);
    assert(votes_in(av2) =~= av2);
    if v.mtype == MessageType::ParticipantVoteCommit {
        assert(all_votes_commit(av2) <==> all_votes_commit(av)) by {
            if all_votes_commit(av) {
                assert forall|i: int|
                    0 <= i < av2.len() implies #[trigger] av2[i].mtype
                        == MessageType::ParticipantVoteCommit by {
                    if i < av.len() {
                        assert(av[i].mtype == MessageType::ParticipantVoteCommit);
                    }
                }
            } else {
                let i = choose|i: int|
                    !(0 <= i < av.len() ==> #[trigger] av[i].mtype
                        == MessageType::ParticipantVoteCommit);
                assert(av2[i].mtype != MessageType::ParticipantVoteCommit);
            }
        }
    } else {
        assert(av2.last().mtype == MessageType::ParticipantVoteAbort);
        assert(!all_votes_commit(av2));
    }
}

/// What the vote messages of one transaction amount to: every one is a vote
/// whose log record is itself, their counts are the counts of the outcomes
/// that produced them, and they are all commit votes exactly when no
/// delivered operation failed.
pub proof fn lemma_vote_records(
    ops: Seq<bool>,
    sends: Seq<bool>,
    ids: Seq<Seq<char>>,
    txid: Seq<char>,
    opid: u32,
    upto: int,
)
    requires
        0 <= upto,
    ensures
        ({
            let rec = tx_vote_records(ops, sends, ids, txid, opid, upto);
            &&& votes_in(rec) == rec
            &&& forall|i: int| 0 <= i < rec.len() ==> is_vote((#[trigger] rec[i]).mtype)
            &&& forall|i: int|
                0 <= i < rec.len() ==> (#[trigger] rec[i]).reqstatus == RequestStatus::Unknown
            &&& vote_log_entries(rec) == rec
            &&& rec.len() == count_sent(sends, upto)
            &&& commit_votes_in(rec) == count_commit_votes(ops, sends, upto)
            &&& abort_votes_in(rec) == count_abort_votes(ops, sends, upto)
            &&& (all_votes_commit(rec) <==> count_abort_votes(ops, sends, upto) == 0)
        }),
    decreases upto,
{
    reveal(Seq::filter);
    let r = tx_vote_records(ops, sends, ids, txid, opid, upto);
    if upto == 0 {
        assert(r =~= Seq::<MessageView>::empty());
        assert(votes_in(r) =~= r);
    } else {
        lemma_vote_records(ops, sends, ids, txid, opid, upto - 1);
        let r0 = tx_vote_records(ops, sends, ids, txid, opid, upto - 1);
        if sends[upto - 1] {
            let g = generated(vote_kind(ops[upto - 1]), txid, ids[upto - 1], opid);
            assert(r =~= r0.push(g));
            lemma_vote_step(r0, g);
            if !ops[upto - 1] {
                assert(count_abort_votes(ops, sends, upto) > 0);
            }
        } else {
            assert(r =~= r0);
        }
    }
    crate::coordinator::lemma_vote_log_entries_identity(r);
}

/// Deliver the proposal of one transaction to every participant in turn and
/// collect, in participant order, the votes whose send succeeded.
fn gather_votes(
    participants: &mut Vec<Participant>,
    prop: &ProtocolMessage,
    op_success: &Vec<bool>,
    send_success: &Vec<bool>,
) -> (arrived: Vec<ProtocolMessage>)
    requires
        prop@.mtype == MessageType::CoordinatorPropose,
        op_success@.len() == old(participants)@.len(),
        send_success@.len() == old(participants)@.len(),
        forall|p: int|
            0 <= p < old(participants)@.len() ==> {
                &&& (#[trigger] old(participants)@[p])@.commit < u32::MAX
                &&& old(participants)@[p]@.abort < u32::MAX
                &&& old(participants)@[p]@.unknown < u32::MAX
            },
    ensures
        ({
            let m = old(participants)@.len() as int;
            let ids = Seq::new(m as nat, |q: int| old(participants)@[q]@.id);
            &&& final(participants)@.len() == m
            &&& forall|q: int|
                0 <= q < m ==> proposed(
                    (#[trigger] old(participants)@[q])@,
                    final(participants)@[q]@,
                    op_success@[q],
                    send_success@[q],
                    prop@.txid,
                    prop@.senderid,
                    prop@.opid,
                )
            &&& views_of(arrived@) == tx_vote_records(
                op_success@,
                send_success@,
                ids,
                prop@.txid,
                prop@.opid,
                m,
            )
        }),
{
    let ghost m = participants@.len() as int;
    let ghost ops = op_success@;
    let ghost sends = send_success@;
    let ghost ids = Seq::new(m as nat, |q: int| old(participants)@[q]@.id);
    let mlen = participants.len();
    let mut arrived: Vec<ProtocolMessage> = Vec::new();
    let mut p: usize = 0;
    proof {
        assert(views_of(arrived@) =~= Seq::<MessageView>::empty());
    }
    while p < mlen
        invariant
            0 <= p <= mlen,
            mlen == m,
            participants@.len() == m,
            ops == op_success@,
            sends == send_success@,
            ops.len() == m,
            sends.len() == m,
            ids == Seq::new(m as nat, |q: int| old(participants)@[q]@.id),
            prop@.mtype == MessageType::CoordinatorPropose,
            forall|q: int| p <= q < m ==> participants@[q] == old(participants)@[q],
            forall|q: int|
                0 <= q < m ==> {
                    &&& (#[trigger] old(participants)@[q])@.commit < u32::MAX
                    &&& old(participants)@[q]@.abort < u32::MAX
                    &&& old(participants)@[q]@.unknown < u32::MAX
                },
            forall|q: int|
                0 <= q < p ==> proposed(
                    (#[trigger] old(participants)@[q])@,
                    participants@[q]@,
                    ops[q],
                    sends[q],
                    prop@.txid,
                    prop@.senderid,
                    prop@.opid,
                ),
            views_of(arrived@) == tx_vote_records(ops, sends, ids, prop@.txid, prop@.opid, p as int),
        decreases mlen - p,
    {
        let mut part = Participant::new(String::new());
        participants.set_and_swap(p, &mut part);
        proof {
            assert(part@ == old(participants)@[p as int]@);
        }
        let ghost av = views_of(arrived@);
        let action = part.handle_message(&prop, op_success[p], send_success[p]);
        participants.set_and_swap(p, &mut part);
        match action {
            ParticipantAction::Vote(Some(v)) => {
                arrived.push(v);
                proof {
                    let av2 = views_of(arrived@);
                    assert(av2 =~= av.push(v@));
                    assert(v@ == generated(
                        vote_kind(ops[p as int]),
                        prop@.txid,
                        ids[p as int],
                        prop@.opid,
                    ));
                    assert(av2 =~= tx_vote_records(
                        ops,
                        sends,
                        ids,
                        prop@.txid,
                        prop@.opid,
                        p + 1,
                    ));
                }
            },
            ParticipantAction::Vote(None) => {
                proof {
                    assert(views_of(arrived@) =~= tx_vote_records(
                        ops,
                        sends,
                        ids,
                        prop@.txid,
                        prop@.opid,
                        p + 1,
                    ));
                }
            },
            ParticipantAction::Continue => {
                proof {
                    assert(false);
                }
            },
            ParticipantAction::Exit => {
                proof {
                    assert(false);
                }
            },
        }
        p = p + 1;
    }
    arrived
}

/// Deliver the global decision of one transaction to every participant: each
/// records it and returns to quiescence.
fn deliver_decision(participants: &mut Vec<Participant>, decision: &ProtocolMessage)
    requires
        decision@.mtype == MessageType::CoordinatorCommit || decision@.mtype
            == MessageType::CoordinatorAbort,
    ensures
        final(participants)@.len() == old(participants)@.len(),
        forall|q: int|
            0 <= q < old(participants)@.len() ==> {
                let pre = (#[trigger] old(participants)@[q])@;
                let post = final(participants)@[q]@;
                &&& post == (ParticipantView {
                    state: ParticipantState::Quiescent,
                    log: pre.log.push(
                        generated(
                            decision@.mtype,
                            decision@.txid,
                            decision@.senderid,
                            decision@.opid,
                        ),
                    ),
                    ..pre
                })
            },
{
    let ghost m = participants@.len() as int;
    let mlen = participants.len();
    let mut p: usize = 0;
    while p < mlen
        invariant
            0 <= p <= mlen,
            mlen == m,
            participants@.len() == m,
            decision@.mtype == MessageType::CoordinatorCommit || decision@.mtype
                == MessageType::CoordinatorAbort,
            forall|q: int| p <= q < m ==> participants@[q] == old(participants)@[q],
            forall|q: int|
                0 <= q < p ==> {
                    let pre = (#[trigger] old(participants)@[q])@;
                    let post = participants@[q]@;
                    &&& post == (ParticipantView {
                        state: ParticipantState::Quiescent,
                        log: pre.log.push(
                            generated(
                                decision@.mtype,
                                decision@.txid,
                                decision@.senderid,
                                decision@.opid,
                            ),
                        ),
                        ..pre
                    })
                },
        decreases mlen - p,
    {
        let mut part = Participant::new(String::new());
        participants.set_and_swap(p, &mut part);
        let action = part.handle_message(decision, false, false);
        participants.set_and_swap(p, &mut part);
        match action {
            ParticipantAction::Continue => {},
            _ => {
                proof {
                    assert(false);
                }
            },
        }
        p = p + 1;
    }
}

/// How the counts relate to each other and to the decision rule.
pub proof fn lemma_counts(ops: Seq<bool>, sends: Seq<bool>, upto: int)
    requires
        0 <= upto,
    ensures
        count_sent(sends, upto) <= upto,
        count_commit_votes(ops, sends, upto) + count_abort_votes(ops, sends, upto) == count_sent(
            sends,
            upto,
        ),
        (count_sent(sends, upto) == upto) <==> (forall|q: int| 0 <= q < upto ==> sends[q]),
        tx_commits(ops, sends, upto) <==> (count_sent(sends, upto) == upto && count_abort_votes(
            ops,
            sends,
            upto,
        ) == 0),
    decreases upto,
{
    if upto > 0 {
        lemma_counts(ops, sends, upto - 1);
        if count_sent(sends, upto) == upto {
            assert(count_sent(sends, upto - 1) == upto - 1 && sends[upto - 1]);
        }
        if forall|q: int| 0 <= q < upto ==> sends[q] {
            assert(sends[upto - 1]);
            assert(forall|q: int| 0 <= q < upto - 1 ==> sends[q]);
        }
        if tx_commits(ops, sends, upto) {
            assert(sends[upto - 1] && ops[upto - 1]);
            assert(tx_commits(ops, sends, upto - 1));
        }
        if count_sent(sends, upto) == upto && count_abort_votes(ops, sends, upto) == 0 {
            assert(sends[upto - 1] && ops[upto - 1]);
            assert(forall|q: int| 0 <= q < upto - 1 ==> (sends[q] && ops[q]));
            assert(forall|q: int| 0 <= q < upto ==> (sends[q] && ops[q]));
        }
    }
}

/// The global decision record of one transaction.
pub open spec fn decision_entry(commit: bool, txid: Seq<char>, senderid: Seq<char>, opid: u32) -> MessageView {
    generated(
        if commit {
            MessageType::CoordinatorCommit
        } else {
            MessageType::CoordinatorAbort
        },
        txid,
        senderid,
        opid,
    )
}

/// The records one transaction adds to a participant's log, in order: its own
/// vote, the proposal that provoked it, and the global decision.
pub open spec fn tx_participant_records(
    op: bool,
    commit: bool,
    txid: Seq<char>,
    senderid: Seq<char>,
    opid: u32,
) -> Seq<MessageView> {
    seq![
        generated(vote_kind(op), txid, senderid, opid),
        generated(MessageType::CoordinatorPropose, txid, senderid, opid),
        decision_entry(commit, txid, senderid, opid),
    ]
}

/// The vote messages that reach the coordinator for one transaction, in
/// participant order: one from each of the first `upto` participants whose
/// send succeeded, carrying that participant's own name.
pub open spec fn tx_vote_records(
    ops: Seq<bool>,
    sends: Seq<bool>,
    ids: Seq<Seq<char>>,
    txid: Seq<char>,
    opid: u32,
    upto: int,
) -> Seq<MessageView>
    decreases upto,
{
    if upto <= 0 {
        Seq::<MessageView>::empty()
    } else {
        tx_vote_records(ops, sends, ids, txid, opid, upto - 1) + (if sends[upto - 1] {
            seq![generated(vote_kind(ops[upto - 1]), txid, ids[upto - 1], opid)]
        } else {
            Seq::<MessageView>::empty()
        })
    }
}

/// A participant that has handled this transaction's proposal but not yet
/// its decision, under the given outcomes.
pub open spec fn proposed(
    pre: ParticipantView,
    post: ParticipantView,
    op: bool,
    send: bool,
    txid: Seq<char>,
    senderid: Seq<char>,
    opid: u32,
) -> bool {
    &&& post.id == pre.id
    &&& post.state == ParticipantState::AwaitingGlobalDecision
    &&& post.log == pre.log.push(generated(vote_kind(op), txid, senderid, opid)).push(
        generated(MessageType::CoordinatorPropose, txid, senderid, opid),
    )
    &&& post.commit == pre.commit + (if send && op {
        1int
    } else {
        0
    })
    &&& post.abort == pre.abort + (if send && !op {
        1int
    } else {
        0
    })
    &&& post.unknown == pre.unknown + (if !send {
        1int
    } else {
        0
    })
}

/// A participant that has handled one whole transaction, proposal and
/// decision, under the given outcomes.
pub open spec fn transacted(
    pre: ParticipantView,
    post: ParticipantView,
    op: bool,
    send: bool,
    commit: bool,
    txid: Seq<char>,
    senderid: Seq<char>,
    opid: u32,
) -> bool {
    &&& post.id == pre.id
    &&& post.state == ParticipantState::Quiescent
    &&& post.log == pre.log + tx_participant_records(op, commit, txid, senderid, opid)
    &&& post.commit == pre.commit + (if send && op {
        1int
    } else {
        0
    })
    &&& post.abort == pre.abort + (if send && !op {
        1int
    } else {
        0
    })
    &&& post.unknown == pre.unknown + (if !send {
        1int
    } else {
        0
    })
}

/// What the collected votes decide: with a synthetic abort appended on a
/// short count, the collected votes are all commit votes exactly when every
/// operation succeeded and every vote reached the wire.
pub proof fn lemma_decision_bridge(
    av: Seq<MessageView>,
    votes: Seq<MessageType>,
    ops: Seq<bool>,
    sends: Seq<bool>,
    ids: Seq<Seq<char>>,
    txid: Seq<char>,
    opid: u32,
    m: int,
)
    requires
        0 <= m,
        ops.len() == m,
        sends.len() == m,
        av == tx_vote_records(ops, sends, ids, txid, opid, m),
        votes == votes_in(av).map_values(|mm: MessageView| mm.mtype) + (
        if votes_in(av).len() < m {
            seq![MessageType::ParticipantVoteAbort]
        } else {
            Seq::<MessageType>::empty()
        }),
    ensures
        all_commit(votes) <==> tx_commits(ops, sends, m),
{
    lemma_counts(ops, sends, m);
    lemma_vote_records(ops, sends, ids, txid, opid, m);
    let timeout = count_sent(sends, m) < m;
    if timeout {
        assert(votes.last() == MessageType::ParticipantVoteAbort);
        assert(!all_commit(votes));
        assert(!tx_commits(ops, sends, m));
    } else {
        assert(votes =~= votes_in(av).map_values(|mm: MessageView| mm.mtype));
        assert(all_commit(votes) <==> all_votes_commit(av)) by {
            if all_votes_commit(av) {
                assert(forall|i: int|
                    0 <= i < votes.len() ==> #[trigger] votes[i]
                        == MessageType::ParticipantVoteCommit) by {
                    assert(forall|i: int|
                        0 <= i < av.len() ==> votes[i] == (#[trigger] av[i]).mtype);
                }
            } else {
                let i = choose|i: int|
                    !(0 <= i < av.len() ==> #[trigger] av[i].mtype
                        == MessageType::ParticipantVoteCommit);
                assert(votes[i] == av[i].mtype);
                assert(!all_commit(votes));
            }
        }
        assert(all_commit(votes) <==> tx_commits(ops, sends, m));
    }
}

/// Drive one whole transaction through the coordinator, every participant
/// and the issuing client: the client's next request is proposed to every
/// participant, each votes under its given outcomes, the votes that reached
/// the wire are collected, the global decision is taken, delivered to every
/// participant, and the client's reply is accounted.
#[verifier::rlimit(100)]
pub fn run_transaction(
    coord: &mut Coordinator,
    participants: &mut Vec<Participant>,
    client: &mut Client,
    op_success: &Vec<bool>,
    send_success: &Vec<bool>,
)
    requires
        old(coord)@.state == CoordinatorState::Quiescent,
        old(participants)@.len() == old(coord)@.participants.len(),
        op_success@.len() == old(participants)@.len(),
        send_success@.len() == old(participants)@.len(),
        old(client).op < u32::MAX,
        old(client).successful_ops + old(client).failed_ops <= old(client).op,
        old(coord)@.commit + old(participants)@.len() <= u32::MAX,
        old(coord)@.abort + old(participants)@.len() <= u32::MAX,
        old(coord)@.unknown < u32::MAX,
        old(coord)@.global_commit < u32::MAX,
        old(coord)@.global_abort < u32::MAX,
        forall|p: int|
            0 <= p < old(participants)@.len() ==> {
                &&& (#[trigger] old(participants)@[p])@.commit < u32::MAX
                &&& old(participants)@[p]@.abort < u32::MAX
                &&& old(participants)@[p]@.unknown < u32::MAX
            },
    ensures
        ({
            let m = old(participants)@.len() as int;
            let commit = tx_commits(op_success@, send_success@, m);
            let opid = (old(client).op + 1) as u32;
            let senderid = old(client).id_str@;
            let txid = txid_of(senderid, opid);
            let ids = Seq::new(m as nat, |q: int| old(participants)@[q]@.id);
            &&& final(coord)@.log == old(coord)@.log + tx_vote_records(
                op_success@,
                send_success@,
                ids,
                txid,
                opid,
                m,
            ) + (if count_sent(send_success@, m) < m {
                seq![synthetic_abort_entry()]
            } else {
                Seq::<MessageView>::empty()
            }) + seq![decision_entry(commit, txid, senderid, opid)]
            &&& final(coord)@.state == CoordinatorState::Quiescent
            &&& final(coord)@.participants == old(coord)@.participants
            &&& final(coord)@.clients == old(coord)@.clients
            &&& final(coord)@.num_request == old(coord)@.num_request
            &&& final(coord)@.global_commit == old(coord)@.global_commit + (
            if commit {
                1int
            } else {
                0
            })
            &&& final(coord)@.global_abort == old(coord)@.global_abort + (
            if commit {
                0int
            } else {
                1
            })
            &&& final(coord)@.commit == old(coord)@.commit + count_commit_votes(
                op_success@,
                send_success@,
                m,
            )
            &&& final(coord)@.abort == old(coord)@.abort + count_abort_votes(
                op_success@,
                send_success@,
                m,
            )
            &&& final(coord)@.unknown == old(coord)@.unknown + (
            if count_sent(send_success@, m) < m {
                1int
            } else {
                0
            })
            &&& final(client).op == old(client).op + 1
            &&& final(client).id_str == old(client).id_str
            &&& final(client).num_requests == old(client).num_requests
            &&& final(client).unknown_ops == old(client).unknown_ops
            &&& final(client).successful_ops == old(client).successful_ops + (
            if commit {
                1int
            } else {
                0
            })
            &&& final(client).failed_ops == old(client).failed_ops + (
            if commit {
                0int
            } else {
                1
            })
            &&& final(participants)@.len() == old(participants)@.len()
            &&& forall|p: int|
                0 <= p < old(participants)@.len() ==> transacted(
                    (#[trigger] old(participants)@[p])@,
                    final(participants)@[p]@,
                    op_success@[p],
                    send_success@[p],
                    commit,
                    txid,
                    senderid,
                    opid,
                )
        }),
{
    let ghost m = participants@.len() as int;
    let ghost ops = op_success@;
    let ghost sends = send_success@;
    let ghost opid0 = (old(client).op + 1) as u32;
    let ghost senderid0 = old(client).id_str@;
    let ghost txid0 = txid_of(senderid0, opid0);
    let ghost ids = Seq::new(m as nat, |q: int| old(participants)@[q]@.id);
    let ghost commit0 = tx_commits(ops, sends, m);
    let request = client.send_next_operation();
    let prop = coord.send_prepare_message(&request);
    let arrived = gather_votes(participants, &prop, op_success, send_success);
    let ghost mid = participants@;
    proof {
        lemma_counts(ops, sends, m);
        lemma_vote_records(ops, sends, ids, txid0, opid0, m);
    }
    let votes = coord.collect_votes(&arrived);
    proof {
        let av = views_of(arrived@);
        assert(av == tx_vote_records(ops, sends, ids, txid0, opid0, m));
        assert(votes@ =~= votes_in(av).map_values(|mm: MessageView| mm.mtype) + (
        if votes_in(av).len() < m {
            seq![MessageType::ParticipantVoteAbort]
        } else {
            Seq::<MessageType>::empty()
        }));
        lemma_decision_bridge(av, votes@, ops, sends, ids, txid0, opid0, m);
        assert(all_commit(votes@) <==> commit0);
    }
    let outcome = coord.decide_transaction(&request, &votes);
    proof {
        assert(outcome.decision_msg@ == decision_entry(commit0, txid0, senderid0, opid0));
        assert(coord@.log =~= old(coord)@.log + tx_vote_records(ops, sends, ids, txid0, opid0, m)
            + (if count_sent(sends, m) < m {
            seq![synthetic_abort_entry()]
        } else {
            Seq::<MessageView>::empty()
        }) + seq![decision_entry(commit0, txid0, senderid0, opid0)]);
    }
    deliver_decision(participants, &outcome.decision_msg);
    proof {
        assert forall|q: int| 0 <= q < m implies transacted(
            (#[trigger] old(participants)@[q])@,
            participants@[q]@,
            ops[q],
            sends[q],
            commit0,
            txid0,
            senderid0,
            opid0,
        ) by {
            let pre = old(participants)@[q]@;
            let post = participants@[q]@;
            assert(proposed(pre, mid[q]@, ops[q], sends[q], txid0, senderid0, opid0));
            assert(post.log =~= pre.log + tx_participant_records(
                ops[q],
                commit0,
                txid0,
                senderid0,
                opid0,
            ));
        }
    }
    let keep = client.recv_result(&outcome.client_msg);
    proof {
        assert(keep);
    }
}

/// Decision consistency, at the granularity of one transaction: if the
/// transaction commits, every participant's records for it contain a commit
/// vote for its transaction id, and no abort vote.
pub proof fn lemma_transaction_decision_consistency(
    ops: Seq<bool>,
    sends: Seq<bool>,
    m: int,
    txid: Seq<char>,
    senderid: Seq<char>,
    opid: u32,
)
    requires
        0 <= m,
        ops.len() == m,
        sends.len() == m,
        tx_commits(ops, sends, m),
    ensures
        forall|q: int|
            0 <= q < m ==> {
                let rec = tx_participant_records(#[trigger] ops[q], true, txid, senderid, opid);
                &&& log_has(rec, MessageType::ParticipantVoteCommit, txid)
                &&& !log_has(rec, MessageType::ParticipantVoteAbort, txid)
            },
{
    assert forall|q: int| 0 <= q < m implies {
        let rec = tx_participant_records(#[trigger] ops[q], true, txid, senderid, opid);
        &&& log_has(rec, MessageType::ParticipantVoteCommit, txid)
        &&& !log_has(rec, MessageType::ParticipantVoteAbort, txid)
    } by {
        assert(sends[q] && ops[q]);
        let rec = tx_participant_records(ops[q], true, txid, senderid, opid);
        assert(rec[0].mtype == MessageType::ParticipantVoteCommit && rec[0].txid == txid);
        assert(forall|i: int|
            0 <= i < rec.len() ==> (#[trigger] rec[i]).mtype
                != MessageType::ParticipantVoteAbort) by {
            assert(rec.len() == 3);
            assert(rec[0].mtype == MessageType::ParticipantVoteCommit);
            assert(rec[1].mtype == MessageType::CoordinatorPropose);
            assert(rec[2].mtype == MessageType::CoordinatorCommit);
        }
    }
}

/// Justification for abort, at the granularity of one transaction whose
/// abort stems from at least one failed operation: that participant's
/// records contain an abort vote for the transaction. (An abort caused by
/// dropped votes alone is justified by the coordinator's own timeout record,
/// not by any participant's log: every participant may still have voted
/// commit locally.)
pub proof fn lemma_transaction_abort_justified(
    ops: Seq<bool>,
    sends: Seq<bool>,
    m: int,
    txid: Seq<char>,
    senderid: Seq<char>,
    opid: u32,
)
    requires
        0 <= m,
        ops.len() == m,
        sends.len() == m,
        exists|q: int| 0 <= q < m && !(#[trigger] ops[q]),
    ensures
        !tx_commits(ops, sends, m),
        exists|q: int|
            0 <= q < m && log_has(
                tx_participant_records(#[trigger] ops[q], false, txid, senderid, opid),
                MessageType::ParticipantVoteAbort,
                txid,
            ),
{
    let q = choose|q: int| 0 <= q < m && !(#[trigger] ops[q]);
    assert(!(sends[q] && ops[q]));
    assert(!tx_commits(ops, sends, m)) by {
        if tx_commits(ops, sends, m) {
            assert(sends[q] && ops[q]);
        }
    }
    let rec = tx_participant_records(ops[q], false, txid, senderid, opid);
    assert(rec[0] == generated(MessageType::ParticipantVoteAbort, txid, senderid, opid));
    assert(log_has(rec, MessageType::ParticipantVoteAbort, txid));
}

/// A sequence of vote records holds no global decision.
proof fn lemma_no_decisions(s: Seq<MessageView>)
    requires
        forall|i: int| 0 <= i < s.len() ==> is_vote((#[trigger] s[i]).mtype),
    ensures
        decision_count(s) == 0,
    decreases s.len(),
{
    reveal(Seq::filter);
    if s.len() > 0 {
        assert(forall|i: int|
            0 <= i < s.drop_last().len() ==> is_vote((#[trigger] s.drop_last()[i]).mtype));
        lemma_no_decisions(s.drop_last());
        assert(!is_decision(s.last().mtype));
    }
}

/// Unique decision, at the granularity of one transaction: the records one
/// transaction adds to the coordinator's log hold exactly one global
/// decision, whatever the outcomes were.
#[verifier::rlimit(100)]
pub proof fn lemma_transaction_unique_decision(
    ops: Seq<bool>,
    sends: Seq<bool>,
    ids: Seq<Seq<char>>,
    commit: bool,
    txid: Seq<char>,
    senderid: Seq<char>,
    opid: u32,
    m: int,
)
    requires
        0 <= m,
    ensures
        ({
            let rec = tx_vote_records(ops, sends, ids, txid, opid, m) + (
            if count_sent(sends, m) < m {
                seq![synthetic_abort_entry()]
            } else {
                Seq::<MessageView>::empty()
            }) + seq![decision_entry(commit, txid, senderid, opid)];
            &&& unique_decision(rec)
            &&& decision_count(rec) == 1
        }),
{
    reveal(Seq::filter);
    lemma_vote_records(ops, sends, ids, txid, opid, m);
    let votes = tx_vote_records(ops, sends, ids, txid, opid, m) + (
    if count_sent(sends, m) < m {
        seq![synthetic_abort_entry()]
    } else {
        Seq::<MessageView>::empty()
    });
    let rec = votes + seq![decision_entry(commit, txid, senderid, opid)];
    assert(forall|i: int|
        0 <= i < votes.len() ==> is_vote((#[trigger] votes[i]).mtype)) by {
        let tvr = tx_vote_records(ops, sends, ids, txid, opid, m);
        assert(forall|i: int| 0 <= i < tvr.len() ==> is_vote((#[trigger] tvr[i]).mtype));
    }
    lemma_no_decisions(votes);
    assert(rec.drop_last() =~= votes);
    assert(rec.last() == decision_entry(commit, txid, senderid, opid));
    assert(is_decision(rec.last().mtype));
    assert(decision_count(rec) == decision_count(votes) + 1);
    assert(unique_decision(rec)) by {
        assert forall|i: int, j: int|
            0 <= i < rec.len() && 0 <= j < rec.len() && is_decision(#[trigger] rec[i].mtype)
                && is_decision(#[trigger] rec[j].mtype) && rec[i].txid == rec[j].txid implies rec[i].mtype
            == rec[j].mtype by {
            if i < votes.len() {
                assert(is_vote(votes[i].mtype));
                assert(!is_decision(rec[i].mtype));
            }
            if j < votes.len() {
                assert(is_vote(votes[j].mtype));
                assert(!is_decision(rec[j].mtype));
            }
        }
    }
}

/// The logical name of the `i`-th client.
pub open spec fn client_id(i: u32) -> Seq<char> {
    "client_"@ + dec_digits(i as nat)
}

/// The logical name of the `i`-th participant.
pub open spec fn participant_id(i: u32) -> Seq<char> {
    "participant_"@ + dec_digits(i as nat)
}

/// Build the `i`-th client's name.
pub fn client_name(i: u32) -> (s: String)
    ensures
        s@ == client_id(i),
{
    String::from_str("client_").concat(u32_to_decimal(i).as_str())
}

/// Build the `i`-th participant's name.
pub fn participant_name(i: u32) -> (s: String)
    ensures
        s@ == participant_id(i),
{
    String::from_str("participant_").concat(u32_to_decimal(i).as_str())
}

/// Distinct operations get distinct transaction ids: the client index and
/// the operation index can both be read back from the id.
pub proof fn lemma_txid_injective(c1: u32, k1: u32, c2: u32, k2: u32)
    requires
        txid_of(client_id(c1), k1) == txid_of(client_id(c2), k2),
    ensures
        c1 == c2,
        k1 == k2,
{
    reveal_strlit("client_");
    reveal_strlit("_op_");
    lemma_dec_digits(c1 as nat);
    lemma_dec_digits(c2 as nat);
    lemma_dec_digits(k1 as nat);
    lemma_dec_digits(k2 as nat);
    let s = txid_of(client_id(c1), k1);
    let d1 = dec_digits(c1 as nat);
    let d2 = dec_digits(c2 as nat);
    let e1 = dec_digits(k1 as nat);
    let e2 = dec_digits(k2 as nat);
    let l1 = d1.len() as int;
    let l2 = d2.len() as int;
    assert("client_"@.len() == 7);
    assert("_op_"@.len() == 4);
    assert(s.len() == 7 + l1 + 4 + e1.len());
    assert(s.len() == 7 + l2 + 4 + e2.len());
    assert forall|i: int| 0 <= i < l1 implies #[trigger] s[7 + i] == d1[i] by {}
    assert forall|i: int| 0 <= i < l2 implies #[trigger] s[7 + i] == d2[i] by {}
    assert(s[7 + l1] == "_op_"@[0]);
    assert(s[7 + l2] == "_op_"@[0]);
    assert("_op_"@[0] == '_');
    assert(char_to_digit('_') == 10);
    assert(l1 == l2) by {
        if l1 < l2 {
            assert(s[7 + l1] == d2[l1]);
            assert(is_digit(d2[l1]));
        }
        if l2 < l1 {
            assert(s[7 + l2] == d1[l2]);
            assert(is_digit(d1[l2]));
        }
    }
    assert forall|i: int| 0 <= i < l1 implies #[trigger] d1[i] == d2[i] by {
        assert(s[7 + i] == d1[i]);
        assert(s[7 + i] == d2[i]);
    }
    assert(d1 =~= d2);
    lemma_dec_digits_injective(c1 as nat, c2 as nat);
    assert(e1.len() == e2.len());
    assert forall|j: int| 0 <= j < e1.len() implies #[trigger] e1[j] == e2[j] by {
        assert(s[7 + l1 + 4 + j] == e1[j]);
        assert(s[7 + l2 + 4 + j] == e2[j]);
    }
    assert(e1 =~= e2);
    lemma_dec_digits_injective(k1 as nat, k2 as nat);
}

/// Every decision recorded so far belongs to an operation that has already
/// been processed: one of an earlier client, or an earlier operation of the
/// client at hand.
pub open spec fn decisions_from_run(log: Seq<MessageView>, c: int, next_op: int) -> bool {
    forall|i: int|
        0 <= i < log.len() && is_decision(#[trigger] log[i].mtype) ==> exists|c2: u32, k2: u32|
            #![trigger txid_of(client_id(c2), (k2 + 1) as u32)]
            ((c2 as int) < c || ((c2 as int) == c && (k2 as int) < next_op)) && k2 < u32::MAX
                && log[i].txid == txid_of(client_id(c2), (k2 + 1) as u32)
}

/// The operation logs of a row of participants.
pub open spec fn participant_logs(parts: Seq<Participant>) -> Seq<Seq<MessageView>> {
    Seq::new(parts.len(), |q: int| parts[q]@.log)
}

/// One transaction later, the coordinator's log still holds at most one
/// decision per transaction id: the new decision's id is fresh.
#[verifier::rlimit(100)]
pub proof fn lemma_run_unique_step(
    oldlog: Seq<MessageView>,
    newlog: Seq<MessageView>,
    ops: Seq<bool>,
    sends: Seq<bool>,
    ids: Seq<Seq<char>>,
    commit: bool,
    c: u32,
    op: u32,
    m: int,
)
    requires
        0 <= m,
        op < u32::MAX,
        unique_decision(oldlog),
        decisions_from_run(oldlog, c as int, op as int),
        !commit ==> forall|i: int|
            0 <= i < oldlog.len() ==> (#[trigger] oldlog[i]).mtype
                != MessageType::CoordinatorCommit,
        newlog == oldlog + tx_vote_records(
            ops,
            sends,
            ids,
            txid_of(client_id(c), (op + 1) as u32),
            (op + 1) as u32,
            m,
        ) + (if count_sent(sends, m) < m {
            seq![synthetic_abort_entry()]
        } else {
            Seq::<MessageView>::empty()
        }) + seq![
            decision_entry(
                commit,
                txid_of(client_id(c), (op + 1) as u32),
                client_id(c),
                (op + 1) as u32,
            ),
        ],
    ensures
        unique_decision(newlog),
        decisions_from_run(newlog, c as int, op + 1),
        !commit ==> forall|i: int|
            0 <= i < newlog.len() ==> (#[trigger] newlog[i]).mtype
                != MessageType::CoordinatorCommit,
        forall|i: int|
            oldlog.len() <= i < newlog.len() - 1 ==> is_vote((#[trigger] newlog[i]).mtype),
        newlog.len() >= oldlog.len() + 1,
{
    lemma_vote_records(ops, sends, ids, txid_of(client_id(c), (op + 1) as u32), (op + 1) as u32, m);
    let txid = txid_of(client_id(c), (op + 1) as u32);
    let votes = tx_vote_records(ops, sends, ids, txid, (op + 1) as u32, m) + (
    if count_sent(sends, m) < m {
        seq![synthetic_abort_entry()]
    } else {
        Seq::<MessageView>::empty()
    });
    let last = newlog.len() - 1;
    assert(newlog.len() == oldlog.len() + votes.len() + 1);
    assert forall|i: int|
        oldlog.len() <= i < last implies is_vote(#[trigger] newlog[i].mtype) by {
        let v = i - oldlog.len();
        assert(newlog[i] == votes[v]);
        if v < tx_vote_records(ops, sends, ids, txid, (op + 1) as u32, m).len() {
            assert(votes[v] == tx_vote_records(ops, sends, ids, txid, (op + 1) as u32, m)[v]);
        } else {
            assert(votes[v] == synthetic_abort_entry());
        }
    }
    assert(newlog[last] == decision_entry(commit, txid, client_id(c), (op + 1) as u32));
    assert forall|i: int|
        0 <= i < oldlog.len() && is_decision(#[trigger] newlog[i].mtype) implies newlog[i].txid
        != txid by {
        assert(newlog[i] == oldlog[i]);
        let (c2, k2) = choose|c2: u32, k2: u32|
            #![trigger txid_of(client_id(c2), (k2 + 1) as u32)]
            ((c2 as int) < c as int || ((c2 as int) == c as int && (k2 as int) < op as int)) && k2
                < u32::MAX && oldlog[i].txid == txid_of(client_id(c2), (k2 + 1) as u32);
        if oldlog[i].txid == txid {
            lemma_txid_injective(c2, (k2 + 1) as u32, c, (op + 1) as u32);
        }
    }
    assert(unique_decision(newlog)) by {
        assert forall|i: int, j: int|
            0 <= i < newlog.len() && 0 <= j < newlog.len() && is_decision(
                #[trigger] newlog[i].mtype,
            ) && is_decision(#[trigger] newlog[j].mtype) && newlog[i].txid == newlog[j].txid implies newlog[i].mtype
            == newlog[j].mtype by {
            if i < oldlog.len() && j < oldlog.len() {
                assert(newlog[i] == oldlog[i]);
                assert(newlog[j] == oldlog[j]);
            }
        }
    }
    assert(decisions_from_run(newlog, c as int, op + 1)) by {
        assert forall|i: int|
            0 <= i < newlog.len() && is_decision(#[trigger] newlog[i].mtype) implies exists|
            c2: u32,
            k2: u32,
        |
            #![trigger txid_of(client_id(c2), (k2 + 1) as u32)]
            ((c2 as int) < c as int || ((c2 as int) == c as int && (k2 as int) < op + 1) ) && k2
                < u32::MAX && newlog[i].txid == txid_of(client_id(c2), (k2 + 1) as u32) by {
            if i < oldlog.len() {
                assert(newlog[i] == oldlog[i]);
                let (c2, k2) = choose|c2: u32, k2: u32|
                    #![trigger txid_of(client_id(c2), (k2 + 1) as u32)]
                    ((c2 as int) < c as int || ((c2 as int) == c as int && (k2 as int)
                        < op as int)) && k2 < u32::MAX && oldlog[i].txid == txid_of(
                        client_id(c2),
                        (k2 + 1) as u32,
                    );
                assert(((c2 as int) < c as int || ((c2 as int) == c as int && (k2 as int) < op + 1))
                    && k2 < u32::MAX && newlog[i].txid == txid_of(client_id(c2), (k2 + 1) as u32));
            } else if i == last {
                assert(((c as int) < c as int || ((c as int) == c as int && (op as int) < op + 1))
                    && op < u32::MAX && newlog[i].txid == txid_of(client_id(c), (op + 1) as u32));
            }
        }
    }
    if !commit {
        assert forall|i: int|
            0 <= i < newlog.len() implies (#[trigger] newlog[i]).mtype
            != MessageType::CoordinatorCommit by {
            if i < oldlog.len() {
                assert(newlog[i] == oldlog[i]);
            } else if i < last {
                assert(is_vote(newlog[i].mtype));
            } else {
                assert(newlog[i].mtype == MessageType::CoordinatorAbort);
            }
        }
    }
}

/// Moving on to the next client only weakens the bound on which operations
/// the recorded decisions may belong to.
pub proof fn lemma_decisions_next_client(log: Seq<MessageView>, c: int, next_op: int)
    requires
        decisions_from_run(log, c, next_op),
    ensures
        decisions_from_run(log, c + 1, 0),
{
    assert forall|i: int|
        0 <= i < log.len() && is_decision(#[trigger] log[i].mtype) implies exists|c2: u32, k2: u32|
        #![trigger txid_of(client_id(c2), (k2 + 1) as u32)]
        ((c2 as int) < c + 1 || ((c2 as int) == c + 1 && (k2 as int) < 0)) && k2 < u32::MAX
            && log[i].txid == txid_of(client_id(c2), (k2 + 1) as u32) by {
        let (c2, k2) = choose|c2: u32, k2: u32|
            #![trigger txid_of(client_id(c2), (k2 + 1) as u32)]
            ((c2 as int) < c || ((c2 as int) == c && (k2 as int) < next_op)) && k2 < u32::MAX
                && log[i].txid == txid_of(client_id(c2), (k2 + 1) as u32);
        assert(((c2 as int) < c + 1 || ((c2 as int) == c + 1 && (k2 as int) < 0)) && k2 < u32::MAX
            && log[i].txid == txid_of(client_id(c2), (k2 + 1) as u32));
    }
}

/// The outcomes every client has learned: the sum of committed and aborted
/// replies over all clients.
pub open spec fn total_outcomes(clients: Seq<Client>) -> int
    decreases clients.len(),
{
    if clients.len() == 0 {
        0
    } else {
        total_outcomes(clients.drop_last()) + clients.last().successful_ops
            + clients.last().failed_ops
    }
}

/// What a finished run hands back: every machine in its final state, and how
/// many transactions were actually processed.
pub struct SimReport {
    pub coordinator: Coordinator,
    pub participants: Vec<Participant>,
    pub clients: Vec<Client>,
    pub processed: u32,
}

/// Run a whole simulation: one coordinator, `n_participants` participants,
/// and `n_clients` clients each issuing `n_requests` requests in turn, every
/// request processed exactly as `run_transaction` says, under per-participant
/// outcomes that are fixed for the run. Processing stops once `stop_after`
/// transactions have been decided (the cleared running flag); at the end the
/// coordinator's exit broadcast reaches every participant.
///
/// The request accounting holds of every run: the global outcomes the
/// coordinator counted, and the outcomes all clients saw in total, both equal
/// the number of processed transactions, which is `n_clients * n_requests`
/// except under an early stop. So does the per-participant accounting: each
/// participant's three counters sum to the number of processed proposals,
/// and its unknown counter counts exactly the proposals whose vote never
/// reached the wire.
///
/// The logs of every run pass the offline checker's log invariants: each
/// transaction gets at most one global decision, every committed transaction
/// shows only commit votes in the participants' logs, and — whenever some
/// participant's operation failed — every aborted transaction is justified
/// by an abort vote in that participant's log. (An abort caused by dropped
/// votes alone is visible only in the coordinator's own timeout records.)
#[verifier::rlimit(100)]
pub fn run_simulation(
    n_clients: u32,
    n_participants: u32,
    n_requests: u32,
    op_success: &Vec<bool>,
    send_success: &Vec<bool>,
    stop_after: u32,
) -> (r: SimReport)
    requires
        op_success@.len() == n_participants,
        send_success@.len() == n_participants,
        n_clients * n_requests <= u32::MAX,
        ({
            let total: int = if stop_after <= n_clients * n_requests {
                stop_after as int
            } else {
                n_clients * n_requests
            };
            total * n_participants + n_participants <= u32::MAX
        }),
    ensures
        ({
            let m = n_participants as int;
            let commit = tx_commits(op_success@, send_success@, m);
            let processed = r.processed as int;
            &&& r.processed == (if stop_after <= n_clients * n_requests {
                stop_after as int
            } else {
                n_clients * n_requests
            })
            &&& r.coordinator@.global_commit == (if commit {
                processed
            } else {
                0int
            })
            &&& r.coordinator@.global_abort == (if commit {
                0int
            } else {
                processed
            })
            &&& r.coordinator@.global_commit + r.coordinator@.global_abort == processed
            &&& r.clients@.len() == n_clients
            &&& total_outcomes(r.clients@) == processed
            &&& unique_decision(r.coordinator@.log)
            &&& decision_consistent(r.coordinator@.log, participant_logs(r.participants@))
            &&& (exists|q: int| 0 <= q < m && !(#[trigger] op_success@[q]))
                ==> crate::checker::abort_justified(
                r.coordinator@.log,
                participant_logs(r.participants@),
            )
            &&& r.participants@.len() == n_participants
            &&& forall|q: int|
                0 <= q < m ==> {
                    let v = (#[trigger] r.participants@[q])@;
                    &&& v.commit == (if send_success@[q] && op_success@[q] {
                        processed
                    } else {
                        0int
                    })
                    &&& v.abort == (if send_success@[q] && !op_success@[q] {
                        processed
                    } else {
                        0int
                    })
                    &&& v.unknown == (if send_success@[q] {
                        0int
                    } else {
                        processed
                    })
                    &&& v.commit + v.abort + v.unknown == processed
                    &&& v.log.len() >= 1
                    &&& v.log.last() == generated(
                        MessageType::CoordinatorExit,
                        "exit"@,
                        "exit"@,
                        0,
                    )
                }
        }),
{
    let ghost ops = op_success@;
    let ghost sends = send_success@;
    let ghost m = n_participants as int;
    let ghost ccv = count_commit_votes(ops, sends, m);
    let ghost cav = count_abort_votes(ops, sends, m);
    let ghost sent = count_sent(sends, m);
    proof {
        lemma_counts(ops, sends, m);
    }
    let limit: u32 = n_clients * n_requests;
    let total: u32 = if stop_after <= limit {
        stop_after
    } else {
        limit
    };
    let mut coordinator = Coordinator::new(n_requests);
    let mut ci: u32 = 0;
    while ci < n_clients
        invariant
            0 <= ci <= n_clients,
            coordinator@.state == CoordinatorState::Quiescent,
            coordinator@.participants.len() == 0,
            coordinator@.log.len() == 0,
            coordinator@.global_commit == 0,
            coordinator@.global_abort == 0,
            coordinator@.commit == 0,
            coordinator@.abort == 0,
            coordinator@.unknown == 0,
        decreases n_clients - ci,
    {
        let name = client_name(ci);
        coordinator.client_join(&name);
        ci = ci + 1;
    }
    let mut participants: Vec<Participant> = Vec::new();
    let mut pi: u32 = 0;
    while pi < n_participants
        invariant
            0 <= pi <= n_participants,
            coordinator@.state == CoordinatorState::Quiescent,
            coordinator@.participants.len() == pi,
            coordinator@.log.len() == 0,
            coordinator@.global_commit == 0,
            coordinator@.global_abort == 0,
            coordinator@.commit == 0,
            coordinator@.abort == 0,
            coordinator@.unknown == 0,
            participants@.len() == pi,
            forall|q: int|
                0 <= q < pi ==> {
                    let v = (#[trigger] participants@[q])@;
                    &&& v.state == ParticipantState::Quiescent
                    &&& v.log.len() == 0
                    &&& v.commit == 0
                    &&& v.abort == 0
                    &&& v.unknown == 0
                },
        decreases n_participants - pi,
    {
        let name = participant_name(pi);
        coordinator.participant_join(&name);
        participants.push(Participant::new(name));
        pi = pi + 1;
    }
    let mut clients: Vec<Client> = Vec::new();
    let mut done: u32 = 0;
    let mut c: u32 = 0;
    while c < n_clients
        invariant
            0 <= c <= n_clients,
            ops == op_success@,
            sends == send_success@,
            ops.len() == m,
            sends.len() == m,
            m == n_participants as int,
            ccv == count_commit_votes(ops, sends, m),
            cav == count_abort_votes(ops, sends, m),
            sent == count_sent(sends, m),
            ccv + cav == sent <= m,
            total as int * m + m <= u32::MAX,
            done <= total,
            total - done <= (n_clients - c) * n_requests,
            clients@.len() == c,
            total_outcomes(clients@) == done,
            unique_decision(coordinator@.log),
            decisions_from_run(coordinator@.log, c as int, 0),
            tx_commits(ops, sends, m) ==> forall|q: int, i: int|
                0 <= q < m && 0 <= i < participants@[q]@.log.len()
                    ==> (#[trigger] participants@[q]@.log[i]).mtype
                    != MessageType::ParticipantVoteAbort,
            !tx_commits(ops, sends, m) ==> forall|i: int|
                0 <= i < coordinator@.log.len() ==> (#[trigger] coordinator@.log[i]).mtype
                    != MessageType::CoordinatorCommit,
            forall|q0: int, i: int|
                0 <= q0 < m && !ops[q0] && 0 <= i < coordinator@.log.len() && is_decision(
                    (#[trigger] coordinator@.log[i]).mtype,
                ) ==> log_has(
                    (#[trigger] participants@[q0])@.log,
                    MessageType::ParticipantVoteAbort,
                    coordinator@.log[i].txid,
                ),
            coordinator@.state == CoordinatorState::Quiescent,
            coordinator@.participants.len() == m,
            coordinator@.global_commit == (if tx_commits(ops, sends, m) {
                done as int
            } else {
                0int
            }),
            coordinator@.global_abort == (if tx_commits(ops, sends, m) {
                0int
            } else {
                done as int
            }),
            coordinator@.commit == done * ccv,
            coordinator@.abort == done * cav,
            coordinator@.unknown == (if sent < m {
                done as int
            } else {
                0int
            }),
            participants@.len() == m,
            forall|q: int|
                0 <= q < m ==> {
                    let v = (#[trigger] participants@[q])@;
                    &&& v.state == ParticipantState::Quiescent
                    &&& v.commit == (if sends[q] && ops[q] {
                        done as int
                    } else {
                        0int
                    })
                    &&& v.abort == (if sends[q] && !ops[q] {
                        done as int
                    } else {
                        0int
                    })
                    &&& v.unknown == (if sends[q] {
                        0int
                    } else {
                        done as int
                    })
                },
        decreases n_clients - c,
    {
        let mut client = Client::new(client_name(c), n_requests);
        let mut k: u32 = 0;
        while k < n_requests
            invariant
                0 <= k <= n_requests,
                c < n_clients,
                ops == op_success@,
                sends == send_success@,
                ops.len() == m,
                sends.len() == m,
                m == n_participants as int,
                ccv == count_commit_votes(ops, sends, m),
                cav == count_abort_votes(ops, sends, m),
                sent == count_sent(sends, m),
                ccv + cav == sent <= m,
                total as int * m + m <= u32::MAX,
                done <= total,
                total - done <= (n_clients - c) * n_requests - k,
                clients@.len() == c,
                client.id_str@ == client_id(c),
                unique_decision(coordinator@.log),
                decisions_from_run(coordinator@.log, c as int, client.op as int),
                tx_commits(ops, sends, m) ==> forall|q: int, i: int|
                    0 <= q < m && 0 <= i < participants@[q]@.log.len()
                        ==> (#[trigger] participants@[q]@.log[i]).mtype
                        != MessageType::ParticipantVoteAbort,
                !tx_commits(ops, sends, m) ==> forall|i: int|
                    0 <= i < coordinator@.log.len() ==> (#[trigger] coordinator@.log[i]).mtype
                        != MessageType::CoordinatorCommit,
                forall|q0: int, i: int|
                    0 <= q0 < m && !ops[q0] && 0 <= i < coordinator@.log.len() && is_decision(
                        (#[trigger] coordinator@.log[i]).mtype,
                    ) ==> log_has(
                        (#[trigger] participants@[q0])@.log,
                        MessageType::ParticipantVoteAbort,
                        coordinator@.log[i].txid,
                    ),
                client.successful_ops + client.failed_ops == client.op,
                client.op <= k,
                client.unknown_ops == 0,
                total_outcomes(clients@) + client.successful_ops + client.failed_ops == done,
                coordinator@.state == CoordinatorState::Quiescent,
                coordinator@.participants.len() == m,
                coordinator@.global_commit == (if tx_commits(ops, sends, m) {
                    done as int
                } else {
                    0int
                }),
                coordinator@.global_abort == (if tx_commits(ops, sends, m) {
                    0int
                } else {
                    done as int
                }),
                coordinator@.commit == done * ccv,
                coordinator@.abort == done * cav,
                coordinator@.unknown == (if sent < m {
                    done as int
                } else {
                    0int
                }),
                participants@.len() == m,
                forall|q: int|
                    0 <= q < m ==> {
                        let v = (#[trigger] participants@[q])@;
                        &&& v.state == ParticipantState::Quiescent
                        &&& v.commit == (if sends[q] && ops[q] {
                            done as int
                        } else {
                            0int
                        })
                        &&& v.abort == (if sends[q] && !ops[q] {
                            done as int
                        } else {
                            0int
                        })
                        &&& v.unknown == (if sends[q] {
                            0int
                        } else {
                            done as int
                        })
                    },
            decreases n_requests - k,
        {
            if done < total {
                proof {
                    assert(done as int * ccv <= total as int * m) by (nonlinear_arith)
                        requires
                            0 <= done as int <= total as int,
                            0 <= ccv <= m,
                    ;
                    assert(done as int * cav <= total as int * m) by (nonlinear_arith)
                        requires
                            0 <= done as int <= total as int,
                            0 <= cav <= m,
                    ;
                }
                let ghost oldlog = coordinator@.log;
                let ghost pre_parts = participants@;
                let ghost op_before = client.op;
                run_transaction(
                    &mut coordinator,
                    &mut participants,
                    &mut client,
                    op_success,
                    send_success,
                );
                done = done + 1;
                proof {
                    assert(done as int * ccv == (done - 1) * ccv + ccv) by (nonlinear_arith);
                    assert(done as int * cav == (done - 1) * cav + cav) by (nonlinear_arith);
                    if sent == m {
                        assert(count_sent(sends, m) == m);
                    }
                    let ids_t = Seq::new(m as nat, |q: int| pre_parts[q]@.id);
                    lemma_run_unique_step(
                        oldlog,
                        coordinator@.log,
                        ops,
                        sends,
                        ids_t,
                        tx_commits(ops, sends, m),
                        c,
                        op_before,
                        m,
                    );
                    if tx_commits(ops, sends, m) {
                        assert forall|q: int, i: int|
                            0 <= q < m && 0 <= i < participants@[q]@.log.len() implies (
                        #[trigger] participants@[q]@.log[i]).mtype
                            != MessageType::ParticipantVoteAbort by {
                            let pre = pre_parts[q]@;
                            let post = participants@[q]@;
                            let recs = tx_participant_records(
                                ops[q],
                                true,
                                txid_of(client_id(c), (op_before + 1) as u32),
                                client_id(c),
                                (op_before + 1) as u32,
                            );
                            assert(post.log == pre.log + recs);
                            if i < pre.log.len() {
                                assert(post.log[i] == pre.log[i]);
                            } else {
                                assert(post.log[i] == recs[i - pre.log.len()]);
                                assert(ops[q]);
                            }
                        }
                    }
                    let newlog = coordinator@.log;
                    let commit_now = tx_commits(ops, sends, m);
                    assert forall|q0: int, i: int|
                        0 <= q0 < m && !ops[q0] && 0 <= i < newlog.len() && is_decision(
                            (#[trigger] newlog[i]).mtype,
                        ) implies log_has(
                        (#[trigger] participants@[q0])@.log,
                        MessageType::ParticipantVoteAbort,
                        newlog[i].txid,
                    ) by {
                        let pre = pre_parts[q0]@;
                        let post = participants@[q0]@.log;
                        let recs = tx_participant_records(
                            ops[q0],
                            commit_now,
                            txid_of(client_id(c), (op_before + 1) as u32),
                            client_id(c),
                            (op_before + 1) as u32,
                        );
                        assert(post == pre.log + recs);
                        assert(post[pre.log.len() as int] == recs[0]);
                        assert(recs[0].mtype == MessageType::ParticipantVoteAbort);
                        if i < oldlog.len() {
                            assert(newlog[i] == oldlog[i]);
                            assert(log_has(
                                pre.log,
                                MessageType::ParticipantVoteAbort,
                                oldlog[i].txid,
                            ));
                            let j = choose|j: int|
                                0 <= j < pre.log.len() && pre.log[j].mtype
                                    == MessageType::ParticipantVoteAbort && pre.log[j].txid
                                    == oldlog[i].txid;
                            assert(post[j] == pre.log[j]);
                        } else if i < newlog.len() - 1 {
                            assert(is_vote(newlog[i].mtype));
                        } else {
                            assert(newlog[i].txid == txid_of(client_id(c), (op_before + 1) as u32));
                            assert(recs[0].txid == newlog[i].txid);
                        }
                    }
                }
            } else {
                proof {
                    assert((n_clients - c) * n_requests >= n_requests) by (nonlinear_arith)
                        requires
                            c < n_clients,
                            n_requests >= 0,
                    ;
                }
            }
            k = k + 1;
        }
        proof {
            assert((n_clients - (c + 1)) * n_requests == (n_clients - c) * n_requests
                - n_requests) by (nonlinear_arith);
            assert(total_outcomes(clients@.push(client)) == total_outcomes(clients@)
                + client.successful_ops + client.failed_ops) by {
                assert(clients@.push(client).drop_last() =~= clients@);
            }
        }
        proof {
            lemma_decisions_next_client(coordinator@.log, c as int, client.op as int);
        }
        clients.push(client);
        c = c + 1;
    }
    proof {
        assert(c == n_clients);
        assert((n_clients - c) as int * (n_requests as int) == 0) by (nonlinear_arith)
            requires
                c == n_clients,
        ;
        assert(done == total);
    }
    let exit_msg = coordinator.send_exit_message();
    let mlen = participants.len();
    let mut p: usize = 0;
    while p < mlen
        invariant
            0 <= p <= mlen,
            mlen == m,
            participants@.len() == m,
            ops == op_success@,
            sends == send_success@,
            ops.len() == m,
            sends.len() == m,
            exit_msg@ == generated(MessageType::CoordinatorExit, "exit"@, "exit"@, 0),
            tx_commits(ops, sends, m) ==> forall|q: int, i: int|
                0 <= q < m && 0 <= i < participants@[q]@.log.len()
                    ==> (#[trigger] participants@[q]@.log[i]).mtype
                    != MessageType::ParticipantVoteAbort,
            forall|q0: int, i: int|
                0 <= q0 < m && !ops[q0] && 0 <= i < coordinator@.log.len() && is_decision(
                    (#[trigger] coordinator@.log[i]).mtype,
                ) ==> log_has(
                    (#[trigger] participants@[q0])@.log,
                    MessageType::ParticipantVoteAbort,
                    coordinator@.log[i].txid,
                ),
            forall|q: int|
                0 <= q < m ==> {
                    let v = (#[trigger] participants@[q])@;
                    &&& v.commit == (if sends[q] && ops[q] {
                        total as int
                    } else {
                        0int
                    })
                    &&& v.abort == (if sends[q] && !ops[q] {
                        total as int
                    } else {
                        0int
                    })
                    &&& v.unknown == (if sends[q] {
                        0int
                    } else {
                        total as int
                    })
                },
            forall|q: int|
                0 <= q < p ==> {
                    let v = (#[trigger] participants@[q])@;
                    &&& v.log.len() >= 1
                    &&& v.log.last() == generated(MessageType::CoordinatorExit, "exit"@, "exit"@, 0)
                },
        decreases mlen - p,
    {
        let mut part = Participant::new(String::new());
        let ghost pre_parts = participants@;
        participants.set_and_swap(p, &mut part);
        let action = part.handle_message(&exit_msg, false, false);
        participants.set_and_swap(p, &mut part);
        proof {
            if tx_commits(ops, sends, m) {
                assert forall|q: int, i: int|
                    0 <= q < m && 0 <= i < participants@[q]@.log.len() implies (
                #[trigger] participants@[q]@.log[i]).mtype != MessageType::ParticipantVoteAbort by {
                    if q == p as int {
                        let pre = pre_parts[q]@;
                        let post = participants@[q]@;
                        assert(post.log == pre.log.push(
                            generated(MessageType::CoordinatorExit, "exit"@, "exit"@, 0),
                        ));
                        if i < pre.log.len() {
                            assert(post.log[i] == pre.log[i]);
                        }
                    } else {
                        assert(participants@[q] == pre_parts[q]);
                    }
                }
            }
            assert forall|q0: int, i: int|
                0 <= q0 < m && !ops[q0] && 0 <= i < coordinator@.log.len() && is_decision(
                    (#[trigger] coordinator@.log[i]).mtype,
                ) implies log_has(
                (#[trigger] participants@[q0])@.log,
                MessageType::ParticipantVoteAbort,
                coordinator@.log[i].txid,
            ) by {
                let txid = coordinator@.log[i].txid;
                assert(log_has(pre_parts[q0]@.log, MessageType::ParticipantVoteAbort, txid));
                let j = choose|j: int|
                    0 <= j < pre_parts[q0]@.log.len() && pre_parts[q0]@.log[j].mtype
                        == MessageType::ParticipantVoteAbort && pre_parts[q0]@.log[j].txid == txid;
                if q0 == p as int {
                    let pre = pre_parts[q0]@;
                    let post = participants@[q0]@;
                    assert(post.log == pre.log.push(
                        generated(MessageType::CoordinatorExit, "exit"@, "exit"@, 0),
                    ));
                    assert(post.log[j] == pre.log[j]);
                } else {
                    assert(participants@[q0] == pre_parts[q0]);
                }
            }
        }
        match action {
            ParticipantAction::Exit => {},
            _ => {
                proof {
                    assert(false);
                }
            },
        }
        p = p + 1;
    }
    proof {
        let plogs = participant_logs(participants@);
        let coordlog = coordinator@.log;
        assert forall|i: int, q: int|
            0 <= i < coordlog.len() && coordlog[i].mtype == MessageType::CoordinatorCommit && 0 <= q
                < plogs.len() && has_vote_for(#[trigger] plogs[q], #[trigger] coordlog[i].txid) implies log_has(
            plogs[q],
            MessageType::ParticipantVoteCommit,
            coordlog[i].txid,
        ) by {
            if !tx_commits(ops, sends, m) {
                assert(coordlog[i].mtype != MessageType::CoordinatorCommit);
            }
            assert(tx_commits(ops, sends, m));
            assert(plogs[q] == participants@[q]@.log);
            let txid = coordlog[i].txid;
            if !log_has(plogs[q], MessageType::ParticipantVoteCommit, txid) {
                assert(log_has(plogs[q], MessageType::ParticipantVoteAbort, txid));
                let j = choose|j: int|
                    0 <= j < plogs[q].len() && plogs[q][j].mtype
                        == MessageType::ParticipantVoteAbort && plogs[q][j].txid == txid;
                assert(participants@[q]@.log[j].mtype != MessageType::ParticipantVoteAbort);
            }
        }
        assert(decision_consistent(coordinator@.log, participant_logs(participants@)));
        if exists|q: int| 0 <= q < m && !(#[trigger] ops[q]) {
            let q0 = choose|q: int| 0 <= q < m && !(#[trigger] ops[q]);
            assert forall|i: int|
                0 <= i < coordlog.len() && #[trigger] coordlog[i].mtype
                    == MessageType::CoordinatorAbort implies exists|p2: int|
                0 <= p2 < plogs.len() && (log_has(
                    #[trigger] plogs[p2],
                    MessageType::ParticipantVoteAbort,
                    coordlog[i].txid,
                ) || !has_vote_for(plogs[p2], coordlog[i].txid)) by {
                assert(is_decision(coordlog[i].mtype));
                assert(log_has(
                    participants@[q0]@.log,
                    MessageType::ParticipantVoteAbort,
                    coordlog[i].txid,
                ));
                assert(plogs[q0] == participants@[q0]@.log);
                assert(0 <= q0 < plogs.len() && (log_has(
                    plogs[q0],
                    MessageType::ParticipantVoteAbort,
                    coordlog[i].txid,
                ) || !has_vote_for(plogs[q0], coordlog[i].txid)));
            }
            assert(crate::checker::abort_justified(coordlog, plogs));
        }
    }
    SimReport { coordinator, participants, clients, processed: done }
}

} // verus!
