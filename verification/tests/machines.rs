use tpc_sim::client::Client;
use tpc_sim::coordinator::Coordinator;
use tpc_sim::message::{MessageType, ProtocolMessage};
use tpc_sim::participant::{Participant, ParticipantAction};

fn request(client: u32, op: u32) -> ProtocolMessage {
    ProtocolMessage::generate(
        MessageType::ClientRequest,
        format!("client_{}_op_{}", client, op),
        format!("client_{}", client),
        op,
    )
}

#[test]
fn client_builds_sequential_requests() {
    let mut c = Client::new(String::from("client_7"), 5);
    let pm = c.send_next_operation();
    assert_eq!(pm.mtype, MessageType::ClientRequest);
    assert_eq!(pm.txid.as_str(), "client_7_op_1");
    assert_eq!(pm.senderid.as_str(), "client_7");
    assert_eq!(pm.opid, 1);
    let pm2 = c.send_next_operation();
    assert_eq!(pm2.txid.as_str(), "client_7_op_2");
    assert_eq!(c.op, 2);
}

#[test]
fn client_accounts_for_each_reply_kind() {
    let mut c = Client::new(String::from("client_0"), 3);
    c.send_next_operation();
    let commit = ProtocolMessage::generate(
        MessageType::ClientResultCommit,
        String::from("client_0_op_1"),
        String::from("coordinator"),
        1,
    );
    assert!(c.recv_result(&commit));
    assert_eq!((c.successful_ops, c.failed_ops), (1, 0));
    c.send_next_operation();
    let abort = ProtocolMessage::generate(
        MessageType::ClientResultAbort,
        String::from("client_0_op_2"),
        String::from("coordinator"),
        2,
    );
    assert!(c.recv_result(&abort));
    assert_eq!((c.successful_ops, c.failed_ops), (1, 1));
    c.send_next_operation();
    let exit = ProtocolMessage::generate(
        MessageType::CoordinatorExit,
        String::from("exit"),
        String::from("exit"),
        0,
    );
    assert!(!c.recv_result(&exit));
    assert_eq!((c.successful_ops, c.failed_ops), (1, 1));
}

#[test]
fn participant_logs_its_true_vote() {
    let mut p = Participant::new(String::from("participant_0"));
    let req = request(0, 1);
    assert!(p.perform_operation(Some(&req), true));
    assert!(!p.perform_operation(Some(&req), false));
    assert!(!p.perform_operation(None, true));
    let log = p.log();
    assert_eq!(log.len(), 2);
    assert_eq!(log.get(0).mtype, MessageType::ParticipantVoteCommit);
    assert_eq!(log.get(1).mtype, MessageType::ParticipantVoteAbort);
}

#[test]
fn participant_send_rewrites_sender_and_counts() {
    let mut p = Participant::new(String::from("participant_3"));
    let vote = ProtocolMessage::generate(
        MessageType::ParticipantVoteCommit,
        String::from("client_0_op_1"),
        String::from("client_0"),
        1,
    );
    let out = p.send(vote, true).expect("a successful send hands the message back");
    assert_eq!(out.senderid.as_str(), "participant_3");
    assert_eq!(out.mtype, MessageType::ParticipantVoteCommit);
    let vote2 = ProtocolMessage::generate(
        MessageType::ParticipantVoteAbort,
        String::from("client_0_op_2"),
        String::from("client_0"),
        2,
    );
    assert!(p.send(vote2, false).is_none());
    assert_eq!(p.counters(), (1, 0, 1));
}

#[test]
fn participant_handles_a_proposal_end_to_end() {
    let mut p = Participant::new(String::from("participant_1"));
    let prop = ProtocolMessage::generate(
        MessageType::CoordinatorPropose,
        String::from("client_0_op_1"),
        String::from("client_0"),
        1,
    );
    match p.handle_message(&prop, true, true) {
        ParticipantAction::Vote(Some(v)) => {
            assert_eq!(v.mtype, MessageType::ParticipantVoteCommit);
            assert_eq!(v.senderid.as_str(), "participant_1");
            assert_eq!(v.txid.as_str(), "client_0_op_1");
        },
        _ => panic!("a proposal must produce a vote"),
    }
    let log = p.log();
    assert_eq!(log.len(), 2);
    assert_eq!(log.get(0).mtype, MessageType::ParticipantVoteCommit);
    assert_eq!(log.get(1).mtype, MessageType::CoordinatorPropose);
}

#[test]
fn participant_drops_vote_on_send_failure() {
    let mut p = Participant::new(String::from("participant_2"));
    let prop = ProtocolMessage::generate(
        MessageType::CoordinatorPropose,
        String::from("client_0_op_1"),
        String::from("client_0"),
        1,
    );
    match p.handle_message(&prop, true, false) {
        ParticipantAction::Vote(None) => {},
        _ => panic!("a dropped vote must come back as None"),
    }
    assert_eq!(p.counters(), (0, 0, 1));
}

#[test]
fn participant_exits_on_exit_message() {
    let mut p = Participant::new(String::from("participant_0"));
    let exit = ProtocolMessage::generate(
        MessageType::CoordinatorExit,
        String::from("exit"),
        String::from("exit"),
        0,
    );
    match p.handle_message(&exit, false, false) {
        ParticipantAction::Exit => {},
        _ => panic!("exit must leave the loop"),
    }
    assert_eq!(p.log().get(0).mtype, MessageType::CoordinatorExit);
}

#[test]
fn coordinator_registers_children() {
    let mut c = Coordinator::new(3);
    c.client_join(&String::from("client_0"));
    c.participant_join(&String::from("participant_0"));
    c.participant_join(&String::from("participant_1"));
    assert_eq!(c.num_participants(), 2);
    assert!(c.has_client(&String::from("client_0")));
    assert!(!c.has_client(&String::from("client_9")));
}

#[test]
fn coordinator_commits_when_all_votes_commit() {
    let mut c = Coordinator::new(1);
    c.client_join(&String::from("client_0"));
    c.participant_join(&String::from("participant_0"));
    let req = request(0, 1);
    let prop = c.send_prepare_message(&req);
    assert_eq!(prop.mtype, MessageType::CoordinatorPropose);
    assert_eq!(prop.txid.as_str(), "client_0_op_1");
    let arrived = vec![ProtocolMessage::generate(
        MessageType::ParticipantVoteCommit,
        String::from("client_0_op_1"),
        String::from("participant_0"),
        1,
    )];
    let votes = c.collect_votes(&arrived);
    assert_eq!(votes, vec![MessageType::ParticipantVoteCommit]);
    let outcome = c.decide_transaction(&req, &votes);
    assert_eq!(outcome.decision_msg.mtype, MessageType::CoordinatorCommit);
    assert_eq!(outcome.client_msg.mtype, MessageType::ClientResultCommit);
    assert!(outcome.client_known);
    assert_eq!(c.counters(), (1, 0, 1, 0, 0));
    let log = c.log();
    assert_eq!(log.get(log.len() - 1).mtype, MessageType::CoordinatorCommit);
}

#[test]
fn coordinator_times_out_a_missing_vote() {
    let mut c = Coordinator::new(1);
    c.client_join(&String::from("client_0"));
    c.participant_join(&String::from("participant_0"));
    let req = request(0, 1);
    let _prop = c.send_prepare_message(&req);
    let arrived: Vec<ProtocolMessage> = Vec::new();
    let votes = c.collect_votes(&arrived);
    assert_eq!(votes, vec![MessageType::ParticipantVoteAbort]);
    let log = c.log();
    assert_eq!(log.len(), 1);
    assert_eq!(log.get(0).mtype, MessageType::ParticipantVoteAbort);
    assert_eq!(log.get(0).txid.as_str(), "None");
    assert_eq!(log.get(0).senderid.as_str(), "None");
    let outcome = c.decide_transaction(&req, &votes);
    assert_eq!(outcome.decision_msg.mtype, MessageType::CoordinatorAbort);
    assert_eq!(c.counters(), (0, 1, 0, 0, 1));
}

#[test]
fn coordinator_exit_message_is_fixed() {
    let mut c = Coordinator::new(0);
    let exit = c.send_exit_message();
    assert_eq!(exit.mtype, MessageType::CoordinatorExit);
    assert_eq!(exit.txid.as_str(), "exit");
    assert_eq!(exit.senderid.as_str(), "exit");
    assert_eq!(exit.opid, 0);
}
