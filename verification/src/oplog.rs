//! The append-only operation log and its line format.
//!
//! Each record is one line of self-describing key/value fields:
//! `mtype=<kind> txid=<txid> senderid=<sender> opid=<decimal> reqstatus=<status>`.
//! The format is deliberately a plain key/value line rather than JSON: it
//! carries the same five fields, needs no escaping for the ids the protocol
//! generates, and stays provable character by character. `record_line` is the
//! mathematical definition of that line. Encoding meets it exactly; decoding
//! returns the message whose record the line is, and fails exactly when the
//! line is no separator-free message's record (`wf_fields`), so what a run
//! writes is what a reload reads back.

use vstd::prelude::*;

use crate::decimal::{dec_digits, lemma_dec_digits_canonical, parse_u32_decimal, u32_to_decimal};
use crate::message::{generated, MessageType, MessageView, ProtocolMessage, RequestStatus};
use crate::text::{find_space, str_eq};

verus! {

/// The name of a message kind as it appears in a log record.
pub open spec fn mtype_name(m: MessageType) -> Seq<char> {
    match m {
        MessageType::ClientRequest => "ClientRequest"@,
        MessageType::ClientResultCommit => "ClientResultCommit"@,
        MessageType::ClientResultAbort => "ClientResultAbort"@,
        MessageType::CoordinatorPropose => "CoordinatorPropose"@,
        MessageType::CoordinatorCommit => "CoordinatorCommit"@,
        MessageType::CoordinatorAbort => "CoordinatorAbort"@,
        MessageType::CoordinatorExit => "CoordinatorExit"@,
        MessageType::ParticipantVoteCommit => "ParticipantVoteCommit"@,
        MessageType::ParticipantVoteAbort => "ParticipantVoteAbort"@,
    }
}

/// The name of a request status as it appears in a log record.
pub open spec fn status_name(r: RequestStatus) -> Seq<char> {
    match r {
        RequestStatus::Unknown => "Unknown"@,
        RequestStatus::Committed => "Committed"@,
        RequestStatus::Aborted => "Aborted"@,
    }
}

/// The one-line record of a message.
pub open spec fn record_line(v: MessageView) -> Seq<char> {
    "mtype="@ + mtype_name(v.mtype) + " "@ + "txid="@ + v.txid + " "@ + "senderid="@ + v.senderid
        + " "@ + "opid="@ + dec_digits(v.opid as nat) + " "@ + "reqstatus="@ + status_name(
        v.reqstatus,
    )
}

/// The kind's name as a string.
pub fn mtype_name_str(m: MessageType) -> (r: &'static str)
    ensures
        r@ == mtype_name(m),
{
    match m {
        MessageType::ClientRequest => "ClientRequest",
        MessageType::ClientResultCommit => "ClientResultCommit",
        MessageType::ClientResultAbort => "ClientResultAbort",
        MessageType::CoordinatorPropose => "CoordinatorPropose",
        MessageType::CoordinatorCommit => "CoordinatorCommit",
        MessageType::CoordinatorAbort => "CoordinatorAbort",
        MessageType::CoordinatorExit => "CoordinatorExit",
        MessageType::ParticipantVoteCommit => "ParticipantVoteCommit",
        MessageType::ParticipantVoteAbort => "ParticipantVoteAbort",
    }
}

/// The status's name as a string.
pub fn status_name_str(r: RequestStatus) -> (s: &'static str)
    ensures
        s@ == status_name(r),
{
    match r {
        RequestStatus::Unknown => "Unknown",
        RequestStatus::Committed => "Committed",
        RequestStatus::Aborted => "Aborted",
    }
}

/// The message kind named by `t`, if any.
pub fn mtype_from_name(t: &str) -> (r: Option<MessageType>)
    ensures
        match r {
            Some(m) => t@ == mtype_name(m),
            None => forall|m: MessageType| t@ != mtype_name(m),
        },
{
    if str_eq(t, "ClientRequest") {
        Some(MessageType::ClientRequest)
    } else if str_eq(t, "ClientResultCommit") {
        Some(MessageType::ClientResultCommit)
    } else if str_eq(t, "ClientResultAbort") {
        Some(MessageType::ClientResultAbort)
    } else if str_eq(t, "CoordinatorPropose") {
        Some(MessageType::CoordinatorPropose)
    } else if str_eq(t, "CoordinatorCommit") {
        Some(MessageType::CoordinatorCommit)
    } else if str_eq(t, "CoordinatorAbort") {
        Some(MessageType::CoordinatorAbort)
    } else if str_eq(t, "CoordinatorExit") {
        Some(MessageType::CoordinatorExit)
    } else if str_eq(t, "ParticipantVoteCommit") {
        Some(MessageType::ParticipantVoteCommit)
    } else if str_eq(t, "ParticipantVoteAbort") {
        Some(MessageType::ParticipantVoteAbort)
    } else {
        None
    }
}

/// The request status named by `t`, if any.
pub fn status_from_name(t: &str) -> (r: Option<RequestStatus>)
    ensures
        match r {
            Some(s) => t@ == status_name(s),
            None => forall|s: RequestStatus| t@ != status_name(s),
        },
{
    if str_eq(t, "Unknown") {
        Some(RequestStatus::Unknown)
    } else if str_eq(t, "Committed") {
        Some(RequestStatus::Committed)
    } else if str_eq(t, "Aborted") {
        Some(RequestStatus::Aborted)
    } else {
        None
    }
}

/// Fields that are free of the separator. A transaction or sender id holding
/// a space cannot survive the line format unchanged (the format does not
/// escape); every id the protocol generates is space-free.
pub open spec fn wf_fields(v: MessageView) -> bool {
    &&& (forall|i: int| 0 <= i < v.txid.len() ==> v.txid[i] != ' ')
    &&& (forall|i: int| 0 <= i < v.senderid.len() ==> v.senderid[i] != ' ')
}

/// The kind and status names are nonempty and free of the separator.
proof fn lemma_name_chars()
    ensures
        forall|m: MessageType| #![auto] 1 <= mtype_name(m).len(),
        forall|m: MessageType, j: int|
            0 <= j < mtype_name(m).len() ==> #[trigger] mtype_name(m)[j] != ' ',
        forall|r: RequestStatus| #![auto] 7 <= status_name(r).len(),
        forall|r: RequestStatus, j: int|
            0 <= j < status_name(r).len() ==> #[trigger] status_name(r)[j] != ' ',
{
    reveal_strlit("ClientRequest");
    reveal_strlit("ClientResultCommit");
    reveal_strlit("ClientResultAbort");
    reveal_strlit("CoordinatorPropose");
    reveal_strlit("CoordinatorCommit");
    reveal_strlit("CoordinatorAbort");
    reveal_strlit("CoordinatorExit");
    reveal_strlit("ParticipantVoteCommit");
    reveal_strlit("ParticipantVoteAbort");
    reveal_strlit("Unknown");
    reveal_strlit("Committed");
    reveal_strlit("Aborted");
}

/// Where everything stands in a record line whose fields are separator-free:
/// the four separator spaces are the only spaces up to the status field, and
/// every piece occupies exactly its slice.
#[verifier::rlimit(100)]
proof fn lemma_record_line_shape(v: MessageView)
    requires
        wf_fields(v),
    ensures
        ({
            let line = record_line(v);
            let a = mtype_name(v.mtype).len() as int;
            let t = v.txid.len() as int;
            let s = v.senderid.len() as int;
            let d = dec_digits(v.opid as nat).len() as int;
            let r = status_name(v.reqstatus).len() as int;
            let sp1 = 6 + a;
            let sp2 = sp1 + 6 + t;
            let sp3 = sp2 + 10 + s;
            let sp4 = sp3 + 6 + d;
            &&& a >= 1
            &&& d >= 1
            &&& r >= 7
            &&& line.len() == sp4 + 11 + r
            &&& line[sp1] == ' '
            &&& line[sp2] == ' '
            &&& line[sp3] == ' '
            &&& line[sp4] == ' '
            &&& (forall|j: int| 0 <= j < sp1 ==> line[j] != ' ')
            &&& (forall|j: int| sp1 < j < sp2 ==> line[j] != ' ')
            &&& (forall|j: int| sp2 < j < sp3 ==> line[j] != ' ')
            &&& (forall|j: int| sp3 < j < sp4 ==> line[j] != ' ')
            &&& line.subrange(0, 6) == "mtype="@
            &&& line.subrange(6, sp1) == mtype_name(v.mtype)
            &&& line.subrange(sp1 + 1, sp1 + 6) == "txid="@
            &&& line.subrange(sp1 + 6, sp2) == v.txid
            &&& line.subrange(sp2 + 1, sp2 + 10) == "senderid="@
            &&& line.subrange(sp2 + 10, sp3) == v.senderid
            &&& line.subrange(sp3 + 1, sp3 + 6) == "opid="@
            &&& line.subrange(sp3 + 6, sp4) == dec_digits(v.opid as nat)
            &&& line.subrange(sp4 + 1, sp4 + 11) == "reqstatus="@
            &&& line.subrange(sp4 + 11, line.len() as int) == status_name(v.reqstatus)
        }),
{
    reveal_strlit("mtype=");
    reveal_strlit("txid=");
    reveal_strlit("senderid=");
    reveal_strlit("opid=");
    reveal_strlit("reqstatus=");
    reveal_strlit(" ");
    lemma_name_chars();
    crate::decimal::lemma_dec_digits(v.opid as nat);
    let line = record_line(v);
    let a = mtype_name(v.mtype).len() as int;
    let t = v.txid.len() as int;
    let s = v.senderid.len() as int;
    let d = dec_digits(v.opid as nat).len() as int;
    let sp1 = 6 + a;
    let sp2 = sp1 + 6 + t;
    let sp3 = sp2 + 10 + s;
    let sp4 = sp3 + 6 + d;
    assert(" "@.len() == 1 && " "@[0] == ' ');
    assert(line.subrange(0, 6) =~= "mtype="@);
    assert(line.subrange(6, sp1) =~= mtype_name(v.mtype));
    assert(line.subrange(sp1 + 1, sp1 + 6) =~= "txid="@);
    assert(line.subrange(sp1 + 6, sp2) =~= v.txid);
    assert(line.subrange(sp2 + 1, sp2 + 10) =~= "senderid="@);
    assert(line.subrange(sp2 + 10, sp3) =~= v.senderid);
    assert(line.subrange(sp3 + 1, sp3 + 6) =~= "opid="@);
    assert(line.subrange(sp3 + 6, sp4) =~= dec_digits(v.opid as nat));
    assert(line.subrange(sp4 + 1, sp4 + 11) =~= "reqstatus="@);
    assert(line.subrange(sp4 + 11, line.len() as int) =~= status_name(v.reqstatus));
    assert forall|j: int| 0 <= j < sp1 implies line[j] != ' ' by {
        if j < 6 {
            assert(line[j] == "mtype="@[j]);
        } else {
            assert(line[j] == mtype_name(v.mtype)[j - 6]);
        }
    }
    assert forall|j: int| sp1 < j < sp2 implies line[j] != ' ' by {
        if j < sp1 + 6 {
            assert(line[j] == "txid="@[j - sp1 - 1]);
        } else {
            assert(line[j] == v.txid[j - sp1 - 6]);
        }
    }
    assert forall|j: int| sp2 < j < sp3 implies line[j] != ' ' by {
        if j < sp2 + 10 {
            assert(line[j] == "senderid="@[j - sp2 - 1]);
        } else {
            assert(line[j] == v.senderid[j - sp2 - 10]);
        }
    }
    assert forall|j: int| sp3 < j < sp4 implies line[j] != ' ' by {
        if j < sp3 + 6 {
            assert(line[j] == "opid="@[j - sp3 - 1]);
        } else {
            let c = dec_digits(v.opid as nat)[j - sp3 - 6];
            assert(line[j] == c);
            assert(crate::decimal::is_digit(c));
            assert(crate::decimal::char_to_digit(' ') == 10);
        }
    }
}

/// Render a message as its one-line record.
pub fn encode_record(m: &ProtocolMessage) -> (line: String)
    ensures
        line@ == record_line(m@),
{
    let mut s = String::from_str("mtype=");
    s.append(mtype_name_str(m.mtype));
    s.append(" ");
    s.append("txid=");
    s.append(m.txid.as_str());
    s.append(" ");
    s.append("senderid=");
    s.append(m.senderid.as_str());
    s.append(" ");
    s.append("opid=");
    let digits = u32_to_decimal(m.opid);
    s.append(digits.as_str());
    s.append(" ");
    s.append("reqstatus=");
    s.append(status_name_str(m.reqstatus));
    s
}

/// When a record line is split at its first spaces, the splits land exactly
/// on the separators: each observed split position equals the position the
/// record's shape dictates.
#[verifier::rlimit(100)]
proof fn lemma_splits_match(
    v: MessageView,
    line: Seq<char>,
    k: int,
    sp1: int,
    sp2: int,
    sp3: int,
    sp4: int,
)
    requires
        wf_fields(v),
        line == record_line(v),
        k >= 1 ==> {
            &&& 0 <= sp1 < line.len()
            &&& line[sp1] == ' '
            &&& (forall|j: int| 0 <= j < sp1 ==> line[j] != ' ')
        },
        k >= 2 ==> {
            &&& sp1 < sp2 < line.len()
            &&& line[sp2] == ' '
            &&& (forall|j: int| sp1 + 1 <= j < sp2 ==> line[j] != ' ')
        },
        k >= 3 ==> {
            &&& sp2 < sp3 < line.len()
            &&& line[sp3] == ' '
            &&& (forall|j: int| sp2 + 1 <= j < sp3 ==> line[j] != ' ')
        },
        k >= 4 ==> {
            &&& sp3 < sp4 < line.len()
            &&& line[sp4] == ' '
            &&& (forall|j: int| sp3 + 1 <= j < sp4 ==> line[j] != ' ')
        },
    ensures
        ({
            let a = mtype_name(v.mtype).len() as int;
            let t = v.txid.len() as int;
            let s = v.senderid.len() as int;
            let d = dec_digits(v.opid as nat).len() as int;
            let r = status_name(v.reqstatus).len() as int;
            let q1 = 6 + a;
            let q2 = q1 + 6 + t;
            let q3 = q2 + 10 + s;
            let q4 = q3 + 6 + d;
            &&& a >= 1
            &&& d >= 1
            &&& r >= 7
            &&& line.len() == q4 + 11 + r
            &&& line[q1] == ' '
            &&& line[q2] == ' '
            &&& line[q3] == ' '
            &&& line[q4] == ' '
            &&& line.subrange(0, 6) == "mtype="@
            &&& line.subrange(6, q1) == mtype_name(v.mtype)
            &&& line.subrange(q1 + 1, q1 + 6) == "txid="@
            &&& line.subrange(q1 + 6, q2) == v.txid
            &&& line.subrange(q2 + 1, q2 + 10) == "senderid="@
            &&& line.subrange(q2 + 10, q3) == v.senderid
            &&& line.subrange(q3 + 1, q3 + 6) == "opid="@
            &&& line.subrange(q3 + 6, q4) == dec_digits(v.opid as nat)
            &&& line.subrange(q4 + 1, q4 + 11) == "reqstatus="@
            &&& line.subrange(q4 + 11, line.len() as int) == status_name(v.reqstatus)
            &&& (k >= 1 ==> sp1 == q1)
            &&& (k >= 2 ==> sp2 == q2)
            &&& (k >= 3 ==> sp3 == q3)
            &&& (k >= 4 ==> sp4 == q4)
        }),
{
    lemma_record_line_shape(v);
    let a = mtype_name(v.mtype).len() as int;
    let t = v.txid.len() as int;
    let s = v.senderid.len() as int;
    let d = dec_digits(v.opid as nat).len() as int;
    let q1 = 6 + a;
    let q2 = q1 + 6 + t;
    let q3 = q2 + 10 + s;
    let q4 = q3 + 6 + d;
    if k >= 1 {
        lemma_first_space(line, 0, sp1, q1);
    }
    if k >= 2 {
        lemma_first_space(line, sp1 + 1, sp2, q2);
    }
    if k >= 3 {
        lemma_first_space(line, sp2 + 1, sp3, q3);
    }
    if k >= 4 {
        lemma_first_space(line, sp3 + 1, sp4, q4);
    }
}

/// No message with separator-free fields renders to this line: the line is
/// nobody's record.
pub open spec fn matches_no_record(line: Seq<char>) -> bool {
    forall|v: MessageView| wf_fields(v) ==> line != #[trigger] record_line(v)
}

/// A first space at or after `from` is unique: two positions that both carry
/// a space and have none before them are the same position.
proof fn lemma_first_space(line: Seq<char>, from: int, found: int, expected: int)
    requires
        from <= found,
        from <= expected,
        line[found] == ' ',
        line[expected] == ' ',
        forall|j: int| from <= j < found ==> line[j] != ' ',
        forall|j: int| from <= j < expected ==> line[j] != ' ',
    ensures
        found == expected,
{
}

/// Find the four separator spaces of a record line and check the slack each
/// field needs. Fails exactly when no separator-free message's record has
/// this space structure.
#[verifier::rlimit(100)]
fn parse_splits(line: &str) -> (r: Option<(usize, usize, usize, usize)>)
    ensures
        r matches Some(sp) ==> {
            let n = line@.len();
            &&& 6 <= sp.0
            &&& sp.0 + 6 <= sp.1
            &&& sp.1 + 10 <= sp.2
            &&& sp.2 + 6 <= sp.3
            &&& sp.3 + 12 <= n
            &&& line@[sp.0 as int] == ' '
            &&& line@[sp.1 as int] == ' '
            &&& line@[sp.2 as int] == ' '
            &&& line@[sp.3 as int] == ' '
            &&& (forall|j: int| 0 <= j < sp.0 ==> line@[j] != ' ')
            &&& (forall|j: int| sp.0 < j < sp.1 ==> line@[j] != ' ')
            &&& (forall|j: int| sp.1 < j < sp.2 ==> line@[j] != ' ')
            &&& (forall|j: int| sp.2 < j < sp.3 ==> line@[j] != ' ')
        },
        r is None ==> matches_no_record(line@),
{
    let n = line.unicode_len();
    let sp1 = match find_space(line, 0) {
        Some(i) => i,
        None => {
            proof {
                assert forall|v: MessageView| wf_fields(v) implies line@ != record_line(v) by {
                    if line@ == record_line(v) {
                        lemma_splits_match(v, line@, 0, 0, 0, 0, 0);
                        assert(line@[6 + mtype_name(v.mtype).len() as int] == ' ');
                    }
                }
            }
            return None;
        },
    };
    if sp1 < 6 {
        proof {
            assert forall|v: MessageView| wf_fields(v) implies line@ != record_line(v) by {
                if line@ == record_line(v) {
                    lemma_splits_match(v, line@, 1, sp1 as int, 0, 0, 0);
                }
            }
        }
        return None;
    }
    let sp2 = match find_space(line, sp1 + 1) {
        Some(i) => i,
        None => {
            proof {
                assert forall|v: MessageView| wf_fields(v) implies line@ != record_line(v) by {
                    if line@ == record_line(v) {
                        lemma_splits_match(v, line@, 1, sp1 as int, 0, 0, 0);
                        assert(line@[sp1 + 6 + v.txid.len() as int] == ' ');
                    }
                }
            }
            return None;
        },
    };
    if sp2 - sp1 < 6 {
        proof {
            assert forall|v: MessageView| wf_fields(v) implies line@ != record_line(v) by {
                if line@ == record_line(v) {
                    lemma_splits_match(v, line@, 2, sp1 as int, sp2 as int, 0, 0);
                }
            }
        }
        return None;
    }
    let sp3 = match find_space(line, sp2 + 1) {
        Some(i) => i,
        None => {
            proof {
                assert forall|v: MessageView| wf_fields(v) implies line@ != record_line(v) by {
                    if line@ == record_line(v) {
                        lemma_splits_match(v, line@, 2, sp1 as int, sp2 as int, 0, 0);
                        assert(line@[sp2 + 10 + v.senderid.len() as int] == ' ');
                    }
                }
            }
            return None;
        },
    };
    if sp3 - sp2 < 10 {
        proof {
            assert forall|v: MessageView| wf_fields(v) implies line@ != record_line(v) by {
                if line@ == record_line(v) {
                    lemma_splits_match(v, line@, 3, sp1 as int, sp2 as int, sp3 as int, 0);
                }
            }
        }
        return None;
    }
    let sp4 = match find_space(line, sp3 + 1) {
        Some(i) => i,
        None => {
            proof {
                assert forall|v: MessageView| wf_fields(v) implies line@ != record_line(v) by {
                    if line@ == record_line(v) {
                        lemma_splits_match(v, line@, 3, sp1 as int, sp2 as int, sp3 as int, 0);
                        assert(line@[sp3 + 6 + dec_digits(v.opid as nat).len() as int] == ' ');
                    }
                }
            }
            return None;
        },
    };
    if sp4 - sp3 < 6 {
        proof {
            assert forall|v: MessageView| wf_fields(v) implies line@ != record_line(v) by {
                if line@ == record_line(v) {
                    lemma_splits_match(v, line@, 4, sp1 as int, sp2 as int, sp3 as int, sp4 as int);
                }
            }
        }
        return None;
    }
    if n - sp4 < 12 {
        proof {
            assert forall|v: MessageView| wf_fields(v) implies line@ != record_line(v) by {
                if line@ == record_line(v) {
                    lemma_splits_match(v, line@, 4, sp1 as int, sp2 as int, sp3 as int, sp4 as int);
                }
            }
        }
        return None;
    }
    Some((sp1, sp2, sp3, sp4))
}

/// Parse a one-line record. Returns the message whose record the line is,
/// and fails exactly when the line is no separator-free message's record.
#[verifier::rlimit(100)]
pub fn decode_record(line: &str) -> (r: Option<ProtocolMessage>)
    ensures
        r matches Some(m) ==> line@ == record_line(m@),
        r is None ==> matches_no_record(line@),
{
    let n = line.unicode_len();
    let (sp1, sp2, sp3, sp4) = match parse_splits(line) {
        Some(t) => t,
        None => {
            return None;
        },
    };
    let key1 = line.substring_char(0, 6);
    if !str_eq(key1, "mtype=") {
        proof {
            assert forall|v: MessageView| wf_fields(v) implies line@ != record_line(v) by {
                if line@ == record_line(v) {
                    lemma_splits_match(v, line@, 1, sp1 as int, 0, 0, 0);
                    assert(key1@ == line@.subrange(0, 6));
                }
            }
        }
        return None;
    }
    let name1 = line.substring_char(6, sp1);
    let mtype = match mtype_from_name(name1) {
        Some(m) => m,
        None => {
            proof {
                assert forall|v: MessageView| wf_fields(v) implies line@ != record_line(v) by {
                    if line@ == record_line(v) {
                        lemma_splits_match(v, line@, 1, sp1 as int, 0, 0, 0);
                        assert(name1@ == mtype_name(v.mtype));
                    }
                }
            }
            return None;
        },
    };
    let key2 = line.substring_char(sp1 + 1, sp1 + 6);
    if !str_eq(key2, "txid=") {
        proof {
            assert forall|v: MessageView| wf_fields(v) implies line@ != record_line(v) by {
                if line@ == record_line(v) {
                    lemma_splits_match(v, line@, 1, sp1 as int, 0, 0, 0);
                    assert(key2@ == line@.subrange(sp1 + 1, sp1 + 6));
                }
            }
        }
        return None;
    }
    let txid = line.substring_char(sp1 + 6, sp2).to_owned();
    let key3 = line.substring_char(sp2 + 1, sp2 + 10);
    if !str_eq(key3, "senderid=") {
        proof {
            assert forall|v: MessageView| wf_fields(v) implies line@ != record_line(v) by {
                if line@ == record_line(v) {
                    lemma_splits_match(v, line@, 2, sp1 as int, sp2 as int, 0, 0);
                    assert(key3@ == line@.subrange(sp2 + 1, sp2 + 10));
                }
            }
        }
        return None;
    }
    let senderid = line.substring_char(sp2 + 10, sp3).to_owned();
    let key4 = line.substring_char(sp3 + 1, sp3 + 6);
    if !str_eq(key4, "opid=") {
        proof {
            assert forall|v: MessageView| wf_fields(v) implies line@ != record_line(v) by {
                if line@ == record_line(v) {
                    lemma_splits_match(v, line@, 3, sp1 as int, sp2 as int, sp3 as int, 0);
                    assert(key4@ == line@.subrange(sp3 + 1, sp3 + 6));
                }
            }
        }
        return None;
    }
    if sp4 - (sp3 + 6) > 1 && line.get_char(sp3 + 6) == '0' {
        proof {
            assert forall|v: MessageView| wf_fields(v) implies line@ != record_line(v) by {
                if line@ == record_line(v) {
                    lemma_splits_match(v, line@, 4, sp1 as int, sp2 as int, sp3 as int, sp4 as int);
                    crate::decimal::lemma_dec_digits_no_leading_zero(v.opid as nat);
                    assert(line@.subrange(sp3 + 6, sp4 as int) == dec_digits(v.opid as nat));
                    assert(line@[sp3 + 6] == dec_digits(v.opid as nat)[0]);
                }
            }
        }
        return None;
    }
    let opid = match parse_u32_decimal(line, sp3 + 6, sp4) {
        Some(v) => v,
        None => {
            proof {
                assert forall|v: MessageView| wf_fields(v) implies line@ != record_line(v) by {
                    if line@ == record_line(v) {
                        lemma_splits_match(
                            v,
                            line@,
                            4,
                            sp1 as int,
                            sp2 as int,
                            sp3 as int,
                            sp4 as int,
                        );
                        crate::decimal::lemma_dec_digits(v.opid as nat);
                        assert(line@.subrange(sp3 + 6, sp4 as int) == dec_digits(v.opid as nat));
                    }
                }
            }
            return None;
        },
    };
    let key5 = line.substring_char(sp4 + 1, sp4 + 11);
    if !str_eq(key5, "reqstatus=") {
        proof {
            assert forall|v: MessageView| wf_fields(v) implies line@ != record_line(v) by {
                if line@ == record_line(v) {
                    lemma_splits_match(v, line@, 4, sp1 as int, sp2 as int, sp3 as int, sp4 as int);
                    assert(key5@ == line@.subrange(sp4 + 1, sp4 + 11));
                }
            }
        }
        return None;
    }
    let name5 = line.substring_char(sp4 + 11, n);
    let reqstatus = match status_from_name(name5) {
        Some(s) => s,
        None => {
            proof {
                assert forall|v: MessageView| wf_fields(v) implies line@ != record_line(v) by {
                    if line@ == record_line(v) {
                        lemma_splits_match(
                            v,
                            line@,
                            4,
                            sp1 as int,
                            sp2 as int,
                            sp3 as int,
                            sp4 as int,
                        );
                        assert(name5@ == status_name(v.reqstatus));
                    }
                }
            }
            return None;
        },
    };
    let m = ProtocolMessage { mtype, txid, senderid, opid, reqstatus };
    proof {
        reveal_strlit("mtype=");
        reveal_strlit("txid=");
        reveal_strlit("senderid=");
        reveal_strlit("opid=");
        reveal_strlit("reqstatus=");
        reveal_strlit(" ");
        let digits = line@.subrange(sp3 as int + 6, sp4 as int);
        if digits.len() > 1 {
            assert(digits[0] == line@[sp3 as int + 6]);
        }
        lemma_dec_digits_canonical(digits);
        assert(digits == dec_digits(m.opid as nat));
        assert("mtype="@.len() == 6);
        assert("txid="@.len() == 5);
        assert("senderid="@.len() == 9);
        assert("opid="@.len() == 5);
        assert("reqstatus="@.len() == 10);
        assert(" "@.len() == 1 && " "@[0] == ' ');
        assert(record_line(m@).len() == line@.len());
        assert(line@ =~= record_line(m@));
    }
    Some(m)
}

/// The append-only operation log: the sequence of messages recorded so far,
/// in write order; rank `i` of the reloaded mapping is entry `i` here.
pub struct OpLog {
    entries: Vec<ProtocolMessage>,
}

impl View for OpLog {
    type V = Seq<MessageView>;

    closed spec fn view(&self) -> Seq<MessageView> {
        self.entries@.map_values(|m: ProtocolMessage| m@)
    }
}

impl OpLog {
    /// A fresh, empty log.
    pub fn new() -> (r: OpLog)
        ensures
            r@ == Seq::<MessageView>::empty(),
    {
        let r = OpLog { entries: Vec::new() };
        proof {
            assert(r@ =~= Seq::<MessageView>::empty());
        }
        r
    }

    pub fn len(&self) -> (n: usize)
        ensures
            n == self@.len(),
    {
        self.entries.len()
    }

    pub fn get(&self, i: usize) -> (r: &ProtocolMessage)
        requires
            i < self@.len(),
        ensures
            r@ == self@[i as int],
    {
        &self.entries[i]
    }

    /// Record one message and hand back the line that persists it.
    pub fn append(&mut self, mtype: MessageType, txid: String, senderid: String, opid: u32) -> (line:
        String)
        ensures
            final(self)@ == old(self)@.push(generated(mtype, txid@, senderid@, opid)),
            line@ == record_line(generated(mtype, txid@, senderid@, opid)),
    {
        let m = ProtocolMessage::generate(mtype, txid, senderid, opid);
        let line = encode_record(&m);
        self.entries.push(m);
        proof {
            assert(self@ =~= old(self)@.push(generated(mtype, txid@, senderid@, opid)));
        }
        line
    }

    /// Render the lines of every entry from rank `from` on: what a writer
    /// that has already persisted the first `from` entries still has to
    /// write.
    pub fn render_from(&self, from: usize) -> (lines: Vec<String>)
        requires
            from <= self@.len(),
        ensures
            lines@.len() == self@.len() - from,
            forall|j: int| 0 <= j < lines@.len() ==> #[trigger] lines@[j]@ == record_line(
                self@[from + j],
            ),
    {
        let mut lines: Vec<String> = Vec::new();
        let mut i: usize = from;
        while i < self.entries.len()
            invariant
                from <= i <= self@.len(),
                self@.len() == self.entries@.len(),
                lines@.len() == i - from,
                forall|j: int| 0 <= j < lines@.len() ==> #[trigger] lines@[j]@ == record_line(
                    self@[from + j],
                ),
            decreases self.entries@.len() - i,
        {
            let line = encode_record(&self.entries[i]);
            lines.push(line);
            i = i + 1;
        }
        lines
    }

    /// Reload a log from its persisted lines, preserving write order. Fails
    /// if any line is not the record of a message.
    pub fn read(lines: &Vec<String>) -> (r: Option<OpLog>)
        ensures
            r matches Some(log) ==> {
                &&& log@.len() == lines@.len()
                &&& forall|i: int| 0 <= i < lines@.len() ==> #[trigger] lines@[i]@ == record_line(
                    log@[i],
                )
            },
            r is None ==> exists|i: int|
                0 <= i < lines@.len() && matches_no_record(#[trigger] lines@[i]@),
    {
        let mut entries: Vec<ProtocolMessage> = Vec::new();
        let mut k: usize = 0;
        while k < lines.len()
            invariant
                0 <= k <= lines@.len(),
                entries@.len() == k,
                forall|i: int| 0 <= i < k ==> #[trigger] lines@[i]@ == record_line(entries@[i]@),
            decreases lines@.len() - k,
        {
            let line: &String = &lines[k];
            match decode_record(line.as_str()) {
                Some(m) => entries.push(m),
                None => {
                    proof {
                        assert(matches_no_record(lines@[k as int]@));
                    }
                    return None;
                },
            }
            k = k + 1;
        }
        let log = OpLog { entries };
        proof {
            assert(forall|i: int| 0 <= i < lines@.len() ==> log@[i] == log.entries@[i]@);
        }
        Some(log)
    }
}

} // verus!
