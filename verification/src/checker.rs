//! The offline log consistency checker: a one-shot pass over the
//! coordinator's log and every participant's log, verifying the cross-log
//! invariants of the protocol. Reading the log files back into `OpLog`
//! values happens outside this crate.

use vstd::prelude::*;

use crate::message::{is_decision, is_vote, MessageType, MessageView};
use crate::oplog::OpLog;
use crate::text::str_eq;

verus! {

broadcast use vstd::seq_lib::group_filter_ensures;

/// The log contains a record of this kind for this transaction.
pub open spec fn log_has(log: Seq<MessageView>, kind: MessageType, txid: Seq<char>) -> bool {
    exists|i: int| 0 <= i < log.len() && log[i].mtype == kind && log[i].txid == txid
}

/// The log contains some vote for this transaction.
pub open spec fn has_vote_for(log: Seq<MessageView>, txid: Seq<char>) -> bool {
    log_has(log, MessageType::ParticipantVoteCommit, txid) || log_has(
        log,
        MessageType::ParticipantVoteAbort,
        txid,
    )
}

/// Decision consistency: for every transaction the coordinator committed,
/// every participant log that contains a vote for it contains a commit vote
/// for it.
pub open spec fn decision_consistent(
    coord: Seq<MessageView>,
    parts: Seq<Seq<MessageView>>,
) -> bool {
    forall|i: int, p: int|
        0 <= i < coord.len() && coord[i].mtype == MessageType::CoordinatorCommit && 0 <= p
            < parts.len() && has_vote_for(#[trigger] parts[p], #[trigger] coord[i].txid)
            ==> log_has(parts[p], MessageType::ParticipantVoteCommit, coord[i].txid)
}

/// Justification for abort: for every transaction the coordinator aborted,
/// some participant log contains an abort vote for it, or some participant
/// log is missing a vote for it.
pub open spec fn abort_justified(coord: Seq<MessageView>, parts: Seq<Seq<MessageView>>) -> bool {
    forall|i: int|
        0 <= i < coord.len() && #[trigger] coord[i].mtype == MessageType::CoordinatorAbort
            ==> exists|p: int|
            0 <= p < parts.len() && (log_has(
                #[trigger] parts[p],
                MessageType::ParticipantVoteAbort,
                coord[i].txid,
            ) || !has_vote_for(parts[p], coord[i].txid))
}

/// Unique decision: no transaction appears in the coordinator log with both
/// a commit and an abort decision.
pub open spec fn unique_decision(coord: Seq<MessageView>) -> bool {
    forall|i: int, j: int|
        0 <= i < coord.len() && 0 <= j < coord.len() && is_decision(#[trigger] coord[i].mtype)
            && is_decision(#[trigger] coord[j].mtype) && coord[i].txid == coord[j].txid
            ==> coord[i].mtype == coord[j].mtype
}

/// How many global decisions the coordinator log records.
pub open spec fn decision_count(coord: Seq<MessageView>) -> nat {
    coord.filter(|m: MessageView| is_decision(m.mtype)).len()
}

/// The mathematical values of a sequence of logs.
pub open spec fn logs_of(parts: Seq<OpLog>) -> Seq<Seq<MessageView>> {
    parts.map_values(|l: OpLog| l@)
}

/// Whether the log contains a record of this kind for this transaction.
pub fn log_has_record(log: &OpLog, kind: MessageType, txid: &String) -> (r: bool)
    ensures
        r == log_has(log@, kind, txid@),
{
    let n = log.len();
    let mut i: usize = 0;
    while i < n
        invariant
            0 <= i <= n,
            n == log@.len(),
            forall|j: int| 0 <= j < i ==> !(log@[j].mtype == kind && log@[j].txid == txid@),
        decreases n - i,
    {
        let entry = log.get(i);
        if entry.mtype == kind && str_eq(entry.txid.as_str(), txid.as_str()) {
            return true;
        }
        i = i + 1;
    }
    false
}

/// Whether the log contains any vote for this transaction.
pub fn log_has_vote(log: &OpLog, txid: &String) -> (r: bool)
    ensures
        r == has_vote_for(log@, txid@),
{
    if log_has_record(log, MessageType::ParticipantVoteCommit, txid) {
        true
    } else {
        log_has_record(log, MessageType::ParticipantVoteAbort, txid)
    }
}

/// Check decision consistency of a run's logs.
pub fn check_decision_consistency(coord: &OpLog, parts: &Vec<OpLog>) -> (r: bool)
    ensures
        r == decision_consistent(coord@, logs_of(parts@)),
{
    let n = coord.len();
    let mut i: usize = 0;
    while i < n
        invariant
            0 <= i <= n,
            n == coord@.len(),
            forall|ii: int, p: int|
                0 <= ii < i && coord@[ii].mtype == MessageType::CoordinatorCommit && 0 <= p
                    < logs_of(parts@).len() && has_vote_for(
                    #[trigger] logs_of(parts@)[p],
                    #[trigger] coord@[ii].txid,
                ) ==> log_has(
                    logs_of(parts@)[p],
                    MessageType::ParticipantVoteCommit,
                    coord@[ii].txid,
                ),
        decreases n - i,
    {
        let entry = coord.get(i);
        if entry.mtype == MessageType::CoordinatorCommit {
            let m = parts.len();
            let mut p: usize = 0;
            while p < m
                invariant
                    0 <= p <= m,
                    m == parts@.len(),
                    i < coord@.len(),
                    entry@ == coord@[i as int],
                    entry@.mtype == MessageType::CoordinatorCommit,
                    forall|pp: int|
                        0 <= pp < p && has_vote_for(#[trigger] logs_of(parts@)[pp], entry.txid@)
                            ==> log_has(
                            logs_of(parts@)[pp],
                            MessageType::ParticipantVoteCommit,
                            entry.txid@,
                        ),
                decreases m - p,
            {
                let plog: &OpLog = &parts[p];
                if log_has_vote(plog, &entry.txid) && !log_has_record(
                    plog,
                    MessageType::ParticipantVoteCommit,
                    &entry.txid,
                ) {
                    proof {
                        assert(logs_of(parts@)[p as int] == plog@);
                        assert(coord@[i as int].mtype == MessageType::CoordinatorCommit);
                        assert(has_vote_for(logs_of(parts@)[p as int], coord@[i as int].txid));
                        assert(!log_has(
                            logs_of(parts@)[p as int],
                            MessageType::ParticipantVoteCommit,
                            coord@[i as int].txid,
                        ));
                        assert(!decision_consistent(coord@, logs_of(parts@)));
                    }
                    return false;
                }
                p = p + 1;
            }
        }
        i = i + 1;
    }
    true
}

/// Check justification for abort of a run's logs.
pub fn check_abort_justified(coord: &OpLog, parts: &Vec<OpLog>) -> (r: bool)
    ensures
        r == abort_justified(coord@, logs_of(parts@)),
{
    let n = coord.len();
    let mut i: usize = 0;
    while i < n
        invariant
            0 <= i <= n,
            n == coord@.len(),
            forall|ii: int|
                0 <= ii < i && #[trigger] coord@[ii].mtype == MessageType::CoordinatorAbort
                    ==> exists|p: int|
                    0 <= p < logs_of(parts@).len() && (log_has(
                        #[trigger] logs_of(parts@)[p],
                        MessageType::ParticipantVoteAbort,
                        coord@[ii].txid,
                    ) || !has_vote_for(logs_of(parts@)[p], coord@[ii].txid)),
        decreases n - i,
    {
        let entry = coord.get(i);
        if entry.mtype == MessageType::CoordinatorAbort {
            let m = parts.len();
            let mut p: usize = 0;
            let mut justified: bool = false;
            while p < m
                invariant
                    0 <= p <= m,
                    m == parts@.len(),
                    i < coord@.len(),
                    entry@ == coord@[i as int],
                    justified ==> exists|pp: int|
                        0 <= pp < parts@.len() && (log_has(
                            #[trigger] logs_of(parts@)[pp],
                            MessageType::ParticipantVoteAbort,
                            entry.txid@,
                        ) || !has_vote_for(logs_of(parts@)[pp], entry.txid@)),
                    !justified ==> forall|pp: int|
                        0 <= pp < p ==> !(log_has(
                            #[trigger] logs_of(parts@)[pp],
                            MessageType::ParticipantVoteAbort,
                            entry.txid@,
                        ) || !has_vote_for(logs_of(parts@)[pp], entry.txid@)),
                decreases m - p,
            {
                let plog: &OpLog = &parts[p];
                if log_has_record(plog, MessageType::ParticipantVoteAbort, &entry.txid)
                    || !log_has_vote(plog, &entry.txid) {
                    proof {
                        assert(logs_of(parts@)[p as int] == plog@);
                    }
                    justified = true;
                }
                p = p + 1;
            }
            if !justified {
                proof {
                    assert(coord@[i as int].mtype == MessageType::CoordinatorAbort);
                    assert(forall|pp: int|
                        0 <= pp < logs_of(parts@).len() ==> !(log_has(
                            #[trigger] logs_of(parts@)[pp],
                            MessageType::ParticipantVoteAbort,
                            coord@[i as int].txid,
                        ) || !has_vote_for(logs_of(parts@)[pp], coord@[i as int].txid)));
                    assert(!abort_justified(coord@, logs_of(parts@)));
                }
                return false;
            }
        }
        i = i + 1;
    }
    true
}

/// Check uniqueness of decisions in the coordinator log.
pub fn check_unique_decision(coord: &OpLog) -> (r: bool)
    ensures
        r == unique_decision(coord@),
{
    let n = coord.len();
    let mut i: usize = 0;
    while i < n
        invariant
            0 <= i <= n,
            n == coord@.len(),
            forall|ii: int, jj: int|
                0 <= ii < i && 0 <= jj < coord@.len() && is_decision(#[trigger] coord@[ii].mtype)
                    && is_decision(#[trigger] coord@[jj].mtype) && coord@[ii].txid
                    == coord@[jj].txid ==> coord@[ii].mtype == coord@[jj].mtype,
        decreases n - i,
    {
        let a = coord.get(i);
        if a.mtype == MessageType::CoordinatorCommit || a.mtype == MessageType::CoordinatorAbort {
            let mut j: usize = 0;
            while j < n
                invariant
                    0 <= j <= n,
                    n == coord@.len(),
                    i < coord@.len(),
                    a@ == coord@[i as int],
                    is_decision(a@.mtype),
                    forall|jj: int|
                        0 <= jj < j && is_decision(#[trigger] coord@[jj].mtype) && coord@[i as int].txid
                            == coord@[jj].txid ==> coord@[i as int].mtype == coord@[jj].mtype,
                decreases n - j,
            {
                let b = coord.get(j);
                if (b.mtype == MessageType::CoordinatorCommit || b.mtype
                    == MessageType::CoordinatorAbort) && str_eq(
                    a.txid.as_str(),
                    b.txid.as_str(),
                ) && a.mtype != b.mtype {
                    proof {
                        assert(is_decision(coord@[i as int].mtype));
                        assert(is_decision(coord@[j as int].mtype));
                        assert(coord@[i as int].txid == coord@[j as int].txid);
                        assert(coord@[i as int].mtype != coord@[j as int].mtype);
                        assert(!unique_decision(coord@));
                    }
                    return false;
                }
                j = j + 1;
            }
        }
        i = i + 1;
    }
    true
}

/// Count the global decisions in the coordinator log.
pub fn count_decisions(coord: &OpLog) -> (c: u64)
    ensures
        c == decision_count(coord@),
{
    let n = coord.len();
    let mut c: u64 = 0;
    let mut i: usize = 0;
    proof {
        assert(coord@.take(0) =~= Seq::<MessageView>::empty());
        reveal(Seq::filter);
    }
    while i < n
        invariant
            0 <= i <= n,
            n == coord@.len(),
            c == decision_count(coord@.take(i as int)),
            c <= i,
        decreases n - i,
    {
        let entry = coord.get(i);
        proof {
            reveal(Seq::filter);
            assert(coord@.take(i + 1).drop_last() =~= coord@.take(i as int));
            assert(coord@.take(i + 1).last() == coord@[i as int]);
        }
        if entry.mtype == MessageType::CoordinatorCommit || entry.mtype
            == MessageType::CoordinatorAbort {
            c = c + 1;
        }
        i = i + 1;
    }
    proof {
        assert(coord@.take(n as int) =~= coord@);
    }
    c
}

/// A record of the coordinator log that breaks a cross-log invariant: an
/// inconsistently committed transaction, an unjustified abort, or one side of
/// a conflicting decision pair.
pub open spec fn entry_violation(
    coord: Seq<MessageView>,
    parts: Seq<Seq<MessageView>>,
    i: int,
) -> bool {
    &&& 0 <= i < coord.len()
    &&& {
        ||| (coord[i].mtype == MessageType::CoordinatorCommit && exists|p: int|
            0 <= p < parts.len() && has_vote_for(#[trigger] parts[p], coord[i].txid) && !log_has(
                parts[p],
                MessageType::ParticipantVoteCommit,
                coord[i].txid,
            ))
        ||| (coord[i].mtype == MessageType::CoordinatorAbort && !(exists|p: int|
            0 <= p < parts.len() && (log_has(
                #[trigger] parts[p],
                MessageType::ParticipantVoteAbort,
                coord[i].txid,
            ) || !has_vote_for(parts[p], coord[i].txid))))
        ||| (is_decision(coord[i].mtype) && exists|j: int|
            0 <= j < coord.len() && is_decision(#[trigger] coord[j].mtype) && coord[j].txid
                == coord[i].txid && coord[j].mtype != coord[i].mtype)
    }
}

/// Logs without a violating record satisfy all three cross-log invariants.
pub proof fn lemma_violation_free(coord: Seq<MessageView>, parts: Seq<Seq<MessageView>>)
    requires
        forall|i: int| !(#[trigger] entry_violation(coord, parts, i)),
    ensures
        decision_consistent(coord, parts),
        abort_justified(coord, parts),
        unique_decision(coord),
{
    assert forall|i: int, p: int|
        0 <= i < coord.len() && coord[i].mtype == MessageType::CoordinatorCommit && 0 <= p
            < parts.len() && has_vote_for(#[trigger] parts[p], #[trigger] coord[i].txid) implies log_has(
        parts[p],
        MessageType::ParticipantVoteCommit,
        coord[i].txid,
    ) by {
        if !log_has(parts[p], MessageType::ParticipantVoteCommit, coord[i].txid) {
            assert(entry_violation(coord, parts, i));
        }
    }
    assert forall|i: int|
        0 <= i < coord.len() && #[trigger] coord[i].mtype == MessageType::CoordinatorAbort implies exists|
        p: int,
    |
        0 <= p < parts.len() && (log_has(
            #[trigger] parts[p],
            MessageType::ParticipantVoteAbort,
            coord[i].txid,
        ) || !has_vote_for(parts[p], coord[i].txid)) by {
        if !(exists|p: int|
            0 <= p < parts.len() && (log_has(
                #[trigger] parts[p],
                MessageType::ParticipantVoteAbort,
                coord[i].txid,
            ) || !has_vote_for(parts[p], coord[i].txid))) {
            assert(entry_violation(coord, parts, i));
        }
    }
    assert forall|i: int, j: int|
        0 <= i < coord.len() && 0 <= j < coord.len() && is_decision(#[trigger] coord[i].mtype)
            && is_decision(#[trigger] coord[j].mtype) && coord[i].txid == coord[j].txid implies coord[i].mtype
        == coord[j].mtype by {
        if coord[i].mtype != coord[j].mtype {
            assert(entry_violation(coord, parts, i));
        }
    }
}

/// Find a violation of the cross-log invariants and report the transaction
/// it concerns: the txid of a violating decision record, or nothing when
/// every invariant holds.
pub fn find_violation(coord: &OpLog, parts: &Vec<OpLog>) -> (r: Option<String>)
    ensures
        ({
            let cl = coord@;
            let pl = logs_of(parts@);
            &&& (r is None ==> decision_consistent(cl, pl) && abort_justified(cl, pl)
                && unique_decision(cl))
            &&& (r matches Some(t) ==> (exists|i: int|
                #[trigger] entry_violation(cl, pl, i) && cl[i].txid == t@) && !(decision_consistent(
                cl,
                pl,
            ) && abort_justified(cl, pl) && unique_decision(cl)))
        }),
{
    let n = coord.len();
    let mut i: usize = 0;
    while i < n
        invariant
            0 <= i <= n,
            n == coord@.len(),
            forall|ii: int| 0 <= ii < i ==> !(#[trigger] entry_violation(coord@, logs_of(parts@), ii)),
        decreases n - i,
    {
        let e = coord.get(i);
        let m = parts.len();
        if e.mtype == MessageType::CoordinatorCommit {
            let mut p: usize = 0;
            while p < m
                invariant
                    0 <= p <= m,
                    m == parts@.len(),
                    i < coord@.len(),
                    e@ == coord@[i as int],
                    e@.mtype == MessageType::CoordinatorCommit,
                    forall|pp: int|
                        0 <= pp < p ==> !(has_vote_for(#[trigger] logs_of(parts@)[pp], e.txid@)
                            && !log_has(
                            logs_of(parts@)[pp],
                            MessageType::ParticipantVoteCommit,
                            e.txid@,
                        )),
                decreases m - p,
            {
                let plog: &OpLog = &parts[p];
                if log_has_vote(plog, &e.txid) && !log_has_record(
                    plog,
                    MessageType::ParticipantVoteCommit,
                    &e.txid,
                ) {
                    proof {
                        assert(logs_of(parts@)[p as int] == plog@);
                        assert(coord@[i as int].mtype == MessageType::CoordinatorCommit);
                        assert(has_vote_for(logs_of(parts@)[p as int], coord@[i as int].txid));
                        assert(!log_has(
                            logs_of(parts@)[p as int],
                            MessageType::ParticipantVoteCommit,
                            coord@[i as int].txid,
                        ));
                        assert(entry_violation(coord@, logs_of(parts@), i as int));
                        assert(!decision_consistent(coord@, logs_of(parts@)));
                    }
                    return Some(e.txid.clone());
                }
                p = p + 1;
            }
        }
        if e.mtype == MessageType::CoordinatorAbort {
            let mut p: usize = 0;
            let mut justified: bool = false;
            while p < m
                invariant
                    0 <= p <= m,
                    m == parts@.len(),
                    i < coord@.len(),
                    e@ == coord@[i as int],
                    e@.mtype == MessageType::CoordinatorAbort,
                    justified ==> exists|pp: int|
                        0 <= pp < parts@.len() && (log_has(
                            #[trigger] logs_of(parts@)[pp],
                            MessageType::ParticipantVoteAbort,
                            e.txid@,
                        ) || !has_vote_for(logs_of(parts@)[pp], e.txid@)),
                    !justified ==> forall|pp: int|
                        0 <= pp < p ==> !(log_has(
                            #[trigger] logs_of(parts@)[pp],
                            MessageType::ParticipantVoteAbort,
                            e.txid@,
                        ) || !has_vote_for(logs_of(parts@)[pp], e.txid@)),
                decreases m - p,
            {
                let plog: &OpLog = &parts[p];
                if log_has_record(plog, MessageType::ParticipantVoteAbort, &e.txid)
                    || !log_has_vote(plog, &e.txid) {
                    proof {
                        assert(logs_of(parts@)[p as int] == plog@);
                    }
                    justified = true;
                }
                p = p + 1;
            }
            if !justified {
                proof {
                    assert(coord@[i as int].mtype == MessageType::CoordinatorAbort);
                    assert(forall|pp: int|
                        0 <= pp < logs_of(parts@).len() ==> !(log_has(
                            #[trigger] logs_of(parts@)[pp],
                            MessageType::ParticipantVoteAbort,
                            coord@[i as int].txid,
                        ) || !has_vote_for(logs_of(parts@)[pp], coord@[i as int].txid)));
                    assert(entry_violation(coord@, logs_of(parts@), i as int));
                    assert(!abort_justified(coord@, logs_of(parts@)));
                }
                return Some(e.txid.clone());
            }
        }
        if e.mtype == MessageType::CoordinatorCommit || e.mtype == MessageType::CoordinatorAbort {
            let mut j: usize = 0;
            while j < n
                invariant
                    0 <= j <= n,
                    n == coord@.len(),
                    i < coord@.len(),
                    e@ == coord@[i as int],
                    is_decision(e@.mtype),
                    forall|jj: int|
                        0 <= jj < j ==> !(is_decision(#[trigger] coord@[jj].mtype)
                            && coord@[jj].txid == coord@[i as int].txid && coord@[jj].mtype
                            != coord@[i as int].mtype),
                decreases n - j,
            {
                let b = coord.get(j);
                if (b.mtype == MessageType::CoordinatorCommit || b.mtype
                    == MessageType::CoordinatorAbort) && str_eq(
                    e.txid.as_str(),
                    b.txid.as_str(),
                ) && e.mtype != b.mtype {
                    proof {
                        assert(is_decision(coord@[i as int].mtype));
                        assert(is_decision(coord@[j as int].mtype));
                        assert(coord@[i as int].txid == coord@[j as int].txid);
                        assert(coord@[i as int].mtype != coord@[j as int].mtype);
                        assert(entry_violation(coord@, logs_of(parts@), i as int));
                        assert(!unique_decision(coord@));
                    }
                    return Some(e.txid.clone());
                }
                j = j + 1;
            }
        }
        proof {
            assert(!entry_violation(coord@, logs_of(parts@), i as int));
        }
        i = i + 1;
    }
    proof {
        lemma_violation_free(coord@, logs_of(parts@));
    }
    None
}

/// The verdict of one offline check over a run's logs: every cross-log
/// invariant, and the declared request volume, hold together.
pub open spec fn run_consistent(
    coord: Seq<MessageView>,
    parts: Seq<Seq<MessageView>>,
    n_clients: u32,
    n_requests: u32,
    n_participants: u32,
) -> bool {
    &&& decision_consistent(coord, parts)
    &&& abort_justified(coord, parts)
    &&& unique_decision(coord)
    &&& decision_count(coord) == n_clients * n_requests
    &&& parts.len() == n_participants
}

/// Check the logs of the last run: the cross-log invariants plus the totals,
/// against the declared number of clients, requests per client and
/// participants.
pub fn check_last_run(
    n_clients: u32,
    n_requests: u32,
    n_participants: u32,
    coord: &OpLog,
    parts: &Vec<OpLog>,
) -> (r: bool)
    ensures
        r == run_consistent(coord@, logs_of(parts@), n_clients, n_requests, n_participants),
{
    proof {
        assert((n_clients as int) * (n_requests as int) <= 0xffffffff * 0xffffffff)
            by (nonlinear_arith)
            requires
                n_clients as int <= 0xffffffff,
                n_requests as int <= 0xffffffff,
        ;
    }
    let expected: u64 = (n_clients as u64) * (n_requests as u64);
    let total = count_decisions(coord);
    let mut ok: bool = total == expected;
    if parts.len() != n_participants as usize {
        ok = false;
    }
    if !check_decision_consistency(coord, parts) {
        ok = false;
    }
    if !check_abort_justified(coord, parts) {
        ok = false;
    }
    if !check_unique_decision(coord) {
        ok = false;
    }
    ok
}

} // verus!
