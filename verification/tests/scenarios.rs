use tpc_sim::checker::{
    check_abort_justified, check_decision_consistency, check_last_run, check_unique_decision,
    count_decisions, find_violation, log_has_record,
};
use tpc_sim::message::MessageType;
use tpc_sim::oplog::OpLog;
use tpc_sim::sim::{run_simulation, SimReport};

fn reload_logs(report: &SimReport) -> (OpLog, Vec<OpLog>) {
    let coord = OpLog::read(&report.coordinator.log().render_from(0))
        .expect("the coordinator's records must reload");
    let mut parts = Vec::new();
    for p in &report.participants {
        parts.push(OpLog::read(&p.log().render_from(0)).expect("a participant's records must reload"));
    }
    (coord, parts)
}

#[test]
fn one_client_one_participant_all_succeed() {
    let r = run_simulation(1, 1, 3, &vec![true], &vec![true], 3);
    assert_eq!(r.processed, 3);
    assert_eq!(r.coordinator.counters(), (3, 0, 3, 0, 0));
    assert_eq!((r.clients[0].successful_ops, r.clients[0].failed_ops), (3, 0));
    assert_eq!(r.participants[0].counters(), (3, 0, 0));
    let (coord, parts) = reload_logs(&r);
    assert!(check_last_run(1, 3, 1, &coord, &parts));
}

#[test]
fn one_client_one_participant_every_operation_fails() {
    let r = run_simulation(1, 1, 3, &vec![false], &vec![true], 3);
    let (gc, ga, commit, abort, unknown) = r.coordinator.counters();
    assert_eq!((gc, ga), (0, 3));
    assert_eq!((commit, abort, unknown), (0, 3, 0));
    assert_eq!(r.participants[0].counters(), (0, 3, 0));
    let (coord, parts) = reload_logs(&r);
    assert!(check_last_run(1, 3, 1, &coord, &parts));
}

#[test]
fn two_participants_dropping_every_vote() {
    let r = run_simulation(1, 2, 2, &vec![true, true], &vec![false, false], 2);
    let (gc, ga, _commit, _abort, unknown) = r.coordinator.counters();
    assert_eq!((gc, ga), (0, 2));
    assert!(unknown >= 2);
    assert_eq!(r.participants[0].counters(), (0, 0, 2));
    assert_eq!(r.participants[1].counters(), (0, 0, 2));
    // Every participant recorded its commit vote locally even though the wire
    // dropped it, so these aborts are justified only by the coordinator's own
    // timeout records, not by any participant's log.
    let (coord, parts) = reload_logs(&r);
    assert!(check_decision_consistency(&coord, &parts));
    assert!(check_unique_decision(&coord));
    assert!(!check_abort_justified(&coord, &parts));
}

#[test]
fn two_clients_two_participants_all_commit() {
    let r = run_simulation(2, 2, 5, &vec![true, true], &vec![true, true], 10);
    let (gc, ga, _, _, _) = r.coordinator.counters();
    assert_eq!((gc, ga), (10, 0));
    for c in &r.clients {
        assert_eq!((c.successful_ops, c.failed_ops), (5, 0));
    }
    let (coord, parts) = reload_logs(&r);
    assert!(check_last_run(2, 5, 2, &coord, &parts));
    assert_eq!(count_decisions(&coord), 10);
}

#[test]
fn early_stop_bounds_the_outcomes() {
    let r = run_simulation(1, 1, 10, &vec![true], &vec![true], 3);
    assert_eq!(r.processed, 3);
    let (gc, ga, _, _, _) = r.coordinator.counters();
    assert!(gc + ga <= 3);
    assert!(r.clients[0].successful_ops + r.clients[0].failed_ops <= 3);
    assert!(log_has_record(
        r.participants[0].log(),
        MessageType::CoordinatorExit,
        &String::from("exit"),
    ));
}

#[test]
fn one_aborting_participant_forces_a_global_abort() {
    let r = run_simulation(1, 3, 1, &vec![true, false, true], &vec![true, true, true], 1);
    let (gc, ga, commit, abort, unknown) = r.coordinator.counters();
    assert_eq!((gc, ga), (0, 1));
    assert_eq!(abort, 1);
    assert_eq!(commit, 2);
    assert_eq!(unknown, 0);
    let (coord, parts) = reload_logs(&r);
    assert!(check_last_run(1, 1, 3, &coord, &parts));
}

#[test]
fn checker_rejects_an_inconsistent_commit() {
    let mut coord = OpLog::new();
    coord.append(
        MessageType::CoordinatorCommit,
        String::from("client_0_op_1"),
        String::from("client_0"),
        1,
    );
    let mut part = OpLog::new();
    part.append(
        MessageType::ParticipantVoteAbort,
        String::from("client_0_op_1"),
        String::from("client_0"),
        1,
    );
    let parts = vec![part];
    assert!(!check_decision_consistency(&coord, &parts));
    assert!(!check_last_run(1, 1, 1, &coord, &parts));
}

#[test]
fn checker_rejects_an_unjustified_abort() {
    let mut coord = OpLog::new();
    coord.append(
        MessageType::CoordinatorAbort,
        String::from("client_0_op_1"),
        String::from("client_0"),
        1,
    );
    let mut part = OpLog::new();
    part.append(
        MessageType::ParticipantVoteCommit,
        String::from("client_0_op_1"),
        String::from("client_0"),
        1,
    );
    assert!(!check_abort_justified(&coord, &vec![part]));
}

#[test]
fn checker_rejects_two_decisions_for_one_transaction() {
    let mut coord = OpLog::new();
    coord.append(
        MessageType::CoordinatorCommit,
        String::from("client_0_op_1"),
        String::from("client_0"),
        1,
    );
    coord.append(
        MessageType::CoordinatorAbort,
        String::from("client_0_op_1"),
        String::from("client_0"),
        1,
    );
    assert!(!check_unique_decision(&coord));
}

#[test]
fn checker_accepts_a_justified_abort_with_a_missing_vote() {
    let mut coord = OpLog::new();
    coord.append(
        MessageType::CoordinatorAbort,
        String::from("client_0_op_1"),
        String::from("client_0"),
        1,
    );
    let part = OpLog::new();
    assert!(check_abort_justified(&coord, &vec![part]));
}

#[test]
fn checker_counts_declared_requests() {
    let r = run_simulation(1, 1, 2, &vec![true], &vec![true], 2);
    let (coord, parts) = reload_logs(&r);
    assert!(!check_last_run(1, 3, 1, &coord, &parts));
    assert!(!check_last_run(1, 2, 2, &coord, &parts));
    assert!(check_last_run(1, 2, 1, &coord, &parts));
}

#[test]
fn transaction_message_flow_is_recorded_in_order() {
    let r = run_simulation(1, 1, 1, &vec![true], &vec![true], 1);
    let p = r.participants[0].log();
    assert_eq!(p.len(), 4);
    assert_eq!(p.get(0).mtype, MessageType::ParticipantVoteCommit);
    assert_eq!(p.get(1).mtype, MessageType::CoordinatorPropose);
    assert_eq!(p.get(2).mtype, MessageType::CoordinatorCommit);
    assert_eq!(p.get(3).mtype, MessageType::CoordinatorExit);
    assert_eq!(p.get(0).txid.as_str(), "client_0_op_1");
    let c = r.coordinator.log();
    assert_eq!(c.len(), 2);
    assert_eq!(c.get(0).mtype, MessageType::ParticipantVoteCommit);
    assert_eq!(c.get(0).senderid.as_str(), "participant_0");
    assert_eq!(c.get(1).mtype, MessageType::CoordinatorCommit);
}

#[test]
fn dropped_votes_log_a_synthetic_abort() {
    let r = run_simulation(1, 1, 1, &vec![true], &vec![false], 1);
    let c = r.coordinator.log();
    assert_eq!(c.len(), 2);
    assert_eq!(c.get(0).mtype, MessageType::ParticipantVoteAbort);
    assert_eq!(c.get(0).txid.as_str(), "None");
    assert_eq!(c.get(1).mtype, MessageType::CoordinatorAbort);
}

#[test]
fn violation_finder_names_the_transaction() {
    let mut coord = OpLog::new();
    coord.append(
        MessageType::CoordinatorCommit,
        String::from("client_0_op_1"),
        String::from("client_0"),
        1,
    );
    let mut part = OpLog::new();
    part.append(
        MessageType::ParticipantVoteAbort,
        String::from("client_0_op_1"),
        String::from("client_0"),
        1,
    );
    let parts = vec![part];
    let found = find_violation(&coord, &parts).expect("an inconsistent commit must be found");
    assert_eq!(found.as_str(), "client_0_op_1");
}

#[test]
fn violation_finder_accepts_a_clean_run() {
    let r = run_simulation(1, 2, 2, &vec![true, true], &vec![true, true], 2);
    let (coord, parts) = reload_logs(&r);
    assert!(find_violation(&coord, &parts).is_none());
}

#[test]
fn violation_finder_reports_conflicting_decisions() {
    let mut coord = OpLog::new();
    coord.append(
        MessageType::CoordinatorCommit,
        String::from("client_1_op_2"),
        String::from("client_1"),
        2,
    );
    coord.append(
        MessageType::CoordinatorAbort,
        String::from("client_1_op_2"),
        String::from("client_1"),
        2,
    );
    let parts: Vec<OpLog> = Vec::new();
    let found = find_violation(&coord, &parts).expect("conflicting decisions must be found");
    assert_eq!(found.as_str(), "client_1_op_2");
}
