use tpc_sim::decimal::{parse_u32_decimal, u32_to_decimal};
use tpc_sim::message::{MessageType, ProtocolMessage, RequestStatus};
use tpc_sim::oplog::{decode_record, encode_record, OpLog};

#[test]
fn decimal_renders_zero() {
    assert_eq!(u32_to_decimal(0).as_str(), "0");
}

#[test]
fn decimal_renders_digits() {
    assert_eq!(u32_to_decimal(42).as_str(), "42");
    assert_eq!(u32_to_decimal(107).as_str(), "107");
}

#[test]
fn decimal_renders_max() {
    assert_eq!(u32_to_decimal(u32::MAX).as_str(), "4294967295");
}

#[test]
fn decimal_parses_back() {
    assert_eq!(parse_u32_decimal("123", 0, 3), Some(123));
    assert_eq!(parse_u32_decimal("4294967295", 0, 10), Some(u32::MAX));
}

#[test]
fn decimal_parse_rejects_overflow() {
    assert_eq!(parse_u32_decimal("4294967296", 0, 10), None);
}

#[test]
fn decimal_parse_rejects_empty_and_nondigit() {
    assert_eq!(parse_u32_decimal("12a", 0, 3), None);
    assert_eq!(parse_u32_decimal("12", 1, 1), None);
}

#[test]
fn generate_sets_unknown_status() {
    let m = ProtocolMessage::generate(
        MessageType::ClientRequest,
        String::from("client_0_op_1"),
        String::from("client_0"),
        1,
    );
    assert_eq!(m.mtype, MessageType::ClientRequest);
    assert_eq!(m.txid.as_str(), "client_0_op_1");
    assert_eq!(m.senderid.as_str(), "client_0");
    assert_eq!(m.opid, 1);
    assert_eq!(m.reqstatus, RequestStatus::Unknown);
}

#[test]
fn encode_produces_one_keyed_line() {
    let m = ProtocolMessage::generate(
        MessageType::CoordinatorCommit,
        String::from("client_0_op_1"),
        String::from("client_0"),
        1,
    );
    let line = encode_record(&m);
    assert_eq!(
        line.as_str(),
        "mtype=CoordinatorCommit txid=client_0_op_1 senderid=client_0 opid=1 reqstatus=Unknown"
    );
}

#[test]
fn decode_round_trips_every_kind() {
    let kinds = [
        MessageType::ClientRequest,
        MessageType::ClientResultCommit,
        MessageType::ClientResultAbort,
        MessageType::CoordinatorPropose,
        MessageType::CoordinatorCommit,
        MessageType::CoordinatorAbort,
        MessageType::CoordinatorExit,
        MessageType::ParticipantVoteCommit,
        MessageType::ParticipantVoteAbort,
    ];
    for (i, kind) in kinds.iter().enumerate() {
        let m = ProtocolMessage::generate(
            *kind,
            format!("client_2_op_{}", i),
            String::from("client_2"),
            i as u32,
        );
        let line = encode_record(&m);
        let back = decode_record(line.as_str()).expect("a rendered record must decode");
        assert_eq!(back.mtype, m.mtype);
        assert_eq!(back.txid, m.txid);
        assert_eq!(back.senderid, m.senderid);
        assert_eq!(back.opid, m.opid);
        assert_eq!(back.reqstatus, m.reqstatus);
    }
}

#[test]
fn decode_rejects_malformed_lines() {
    assert!(decode_record("").is_none());
    assert!(decode_record("garbage").is_none());
    assert!(decode_record("mtype=Bogus txid=t senderid=s opid=1 reqstatus=Unknown").is_none());
    assert!(decode_record("mtype=ClientRequest txid=t senderid=s opid=x reqstatus=Unknown").is_none());
    assert!(decode_record("mtype=ClientRequest txid=t senderid=s opid=007 reqstatus=Unknown").is_none());
    assert!(decode_record("mtype=ClientRequest txid=t senderid=s opid=1 reqstatus=Odd").is_none());
    assert!(decode_record("mtype=ClientRequest txid=t senderid=s opid=1").is_none());
    assert!(decode_record("mtype=ClientRequest txid=t senderid=s opid=4294967296 reqstatus=Unknown").is_none());
}

#[test]
fn oplog_append_renders_and_reloads_in_order() {
    let mut log = OpLog::new();
    let l1 = log.append(
        MessageType::ClientRequest,
        String::from("client_0_op_1"),
        String::from("client_0"),
        1,
    );
    let l2 = log.append(
        MessageType::CoordinatorAbort,
        String::from("client_0_op_1"),
        String::from("client_0"),
        1,
    );
    assert_eq!(log.len(), 2);
    assert_eq!(log.get(0).mtype, MessageType::ClientRequest);
    assert_eq!(log.get(1).mtype, MessageType::CoordinatorAbort);
    let lines = log.render_from(0);
    assert_eq!(lines.len(), 2);
    assert_eq!(lines[0], l1);
    assert_eq!(lines[1], l2);
    let reloaded = OpLog::read(&lines).expect("rendered lines must reload");
    assert_eq!(reloaded.len(), 2);
    assert_eq!(reloaded.get(0).txid, log.get(0).txid);
    assert_eq!(reloaded.get(1).mtype, MessageType::CoordinatorAbort);
}

#[test]
fn oplog_read_rejects_a_malformed_line() {
    let lines = vec![String::from("not a record")];
    assert!(OpLog::read(&lines).is_none());
}

#[test]
fn oplog_render_from_skips_persisted_entries() {
    let mut log = OpLog::new();
    log.append(
        MessageType::ClientRequest,
        String::from("client_0_op_1"),
        String::from("client_0"),
        1,
    );
    let line = log.append(
        MessageType::ClientRequest,
        String::from("client_0_op_2"),
        String::from("client_0"),
        2,
    );
    let fresh = log.render_from(1);
    assert_eq!(fresh.len(), 1);
    assert_eq!(fresh[0], line);
}

#[test]
fn decode_accepts_every_separator_free_record() {
    // Completeness in the concrete: a record with unusual but separator-free
    // fields still decodes to the message that rendered it.
    let m = tpc_sim::message::ProtocolMessage {
        mtype: MessageType::ParticipantVoteAbort,
        txid: String::from("None"),
        senderid: String::from("None"),
        opid: 0,
        reqstatus: RequestStatus::Aborted,
    };
    let line = encode_record(&m);
    let back = decode_record(line.as_str()).expect("a separator-free record must decode");
    assert_eq!(back.txid.as_str(), "None");
    assert_eq!(back.reqstatus, RequestStatus::Aborted);
}
