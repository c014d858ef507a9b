//! Tests of consensus.

use std::sync::{Arc, Mutex, PoisonError};

use leviathan::mesh::mtls::TlsConfig;
use leviathan::mesh::proxy::{Endpoint, ProxyAction, ProxyConfig, ProxyEvent, SidecarProxy};
use leviathan::metrics::MetricsRegistry;
use leviathan::model::container::{Container, WorkloadSpec};
use leviathan::model::node::{Node, NodeStatus};
use leviathan::model::resources::ResourceSpec;
use leviathan::net::error::NetError;
use leviathan::raft::config::RaftConfig;
use leviathan::raft::error::RaftError;
use leviathan::raft::lock::{lock_outcome, lock_state_machine};
use leviathan::raft::log::{LogOp, RaftLog, StorageReport};
use leviathan::raft::message::{LogEntry, RaftMessage};
use leviathan::raft::node::{NodeEvent, NodeOutput, ProposalResponse, RaftNode, Role};
use leviathan::raft::state_machine::{ClusterCommand, ClusterStateMachine, StateMachine};
use leviathan::raft::wire;
use leviathan::runtime::container::{ContainerRuntime, ContainerSpec, ContainerState};
use leviathan::runtime::namespace::NamespaceConfig;
use leviathan::scheduler::{FirstFitDecreasingScheduler, Scheduler};
use leviathan::storage::error::StorageError;
use leviathan::storage::wal::{Wal, WalEntry};

#[test]
fn default_config_is_valid() {
    let cfg = RaftConfig::default();
    assert!(cfg.validate().is_none(), "default config should be valid");
}

#[test]
fn quorum_size_3_nodes() {
    let cfg = RaftConfig { peers: vec![1, 2, 3], ..RaftConfig::default() };
    assert_eq!(cfg.quorum_size(), 2);
}

#[test]
fn quorum_size_5_nodes() {
    let cfg = RaftConfig { peers: vec![1, 2, 3, 4, 5], ..RaftConfig::default() };
    assert_eq!(cfg.quorum_size(), 3);
}

#[test]
fn invalid_timeout_order() {
    let cfg = RaftConfig {
        election_timeout_min_ms: 300,
        election_timeout_max_ms: 150,
        ..RaftConfig::default()
    };
    assert!(cfg.validate().is_some());
}

#[test]
fn heartbeat_must_be_less_than_election_timeout() {
    let cfg = RaftConfig {
        heartbeat_interval_ms: 200,
        election_timeout_min_ms: 150,
        ..RaftConfig::default()
    };
    assert!(cfg.validate().is_some());
}

#[test]
fn self_must_be_in_peers() {
    let cfg = RaftConfig { node_id: 99, peers: vec![1, 2, 3], ..RaftConfig::default() };
    assert!(cfg.validate().is_some());
}

#[test]
fn other_configuration_rules() {
    let cfg = RaftConfig { peers: vec![], ..RaftConfig::default() };
    assert!(cfg.validate().unwrap().contains("at least one"));
    let cfg = RaftConfig { max_entries_per_append: 0, ..RaftConfig::default() };
    assert!(cfg.validate().unwrap().contains("max_entries_per_append"));
    let cfg = RaftConfig::default();
    let (min, max) = cfg.election_timeout_range();
    assert!(cfg.heartbeat_interval() < min && min < max);
}

#[test]
fn log_entry_roundtrip_via_wal_entry() {
    let entry = LogEntry::new(42, 3, b"hello".to_vec());
    let wal: WalEntry = entry.clone().into();
    assert_eq!(wal.data, b"hello");
    let back: LogEntry = wal.into();
    assert_eq!(entry, back);
}

#[test]
fn message_term_extraction() {
    let msg = RaftMessage::AppendEntries {
        term: 7,
        leader_id: 1,
        prev_log_index: 0,
        prev_log_term: 0,
        entries: vec![],
        leader_commit: 0,
    };
    assert_eq!(msg.term(), 7);
}

#[test]
fn request_vote_serialization() {
    let msg = RaftMessage::RequestVote {
        term: 5,
        candidate_id: 2,
        last_log_index: 10,
        last_log_term: 4,
    };
    let bytes = wire::encode(&msg);
    assert_eq!(bytes, bincode::serialize(&(0u32, 5u64, 2u64, 10u64, 4u64)).expect("serialize"));
    let back = wire::decode(&bytes).expect("deserialize");
    assert_eq!(back.term(), 5);
}

#[test]
fn every_message_survives_the_wire() {
    let messages = vec![
        RaftMessage::RequestVoteResponse { term: 1, vote_granted: true, from: 3 },
        RaftMessage::PreVote { term: 2, candidate_id: 1, last_log_index: 4, last_log_term: 1 },
        RaftMessage::PreVoteResponse { term: 3, vote_granted: false, from: 2 },
        RaftMessage::AppendEntries {
            term: 4,
            leader_id: 1,
            prev_log_index: 2,
            prev_log_term: 3,
            entries: vec![LogEntry::new(3, 4, b"a".to_vec()), LogEntry::new(4, 4, vec![])],
            leader_commit: 2,
        },
        RaftMessage::AppendEntriesResponse { term: 5, success: true, match_index: 9, from: 2 },
    ];
    for msg in messages {
        let bytes = wire::encode(&msg);
        let back = wire::decode(&bytes).expect("decode");
        assert_eq!(format!("{:?}", msg), format!("{:?}", back));
        assert!(matches!(wire::decode(&bytes[..bytes.len() - 1]), Err(NetError::Serialization(_))));
    }
    assert!(wire::decode(&9u32.to_le_bytes()).is_err());
}

#[test]
fn append_entries_is_encoded_as_bincode_does() {
    let msg = RaftMessage::AppendEntries {
        term: 4,
        leader_id: 1,
        prev_log_index: 2,
        prev_log_term: 3,
        entries: vec![LogEntry::new(3, 4, b"a".to_vec())],
        leader_commit: 2,
    };
    let entries = vec![(3u64, 4u64, b"a".to_vec())];
    let want = bincode::serialize(&(4u32, 4u64, 1u64, 2u64, 3u64, entries, 2u64)).unwrap();
    assert_eq!(wire::encode(&msg), want);
}

#[test]
fn submit_and_query_workload() {
    let mut sm = ClusterStateMachine::new();
    let cmd = ClusterCommand::SubmitWorkload {
        workload_id: "wl-1".into(),
        spec: b"nginx:latest".to_vec(),
    };
    let entry = LogEntry::new(1, 1, cmd.encode());
    sm.apply(&entry).unwrap();
    assert!(sm.has_workload("wl-1"));
    assert_eq!(sm.workload_status("wl-1"), Some("pending"));
}

#[test]
fn update_status() {
    let mut sm = ClusterStateMachine::new();
    let cmd1 = ClusterCommand::SubmitWorkload { workload_id: "wl-1".into(), spec: vec![] };
    sm.apply(&LogEntry::new(1, 1, cmd1.encode())).unwrap();
    let cmd2 = ClusterCommand::UpdateStatus {
        workload_id: "wl-1".into(),
        status: "running".into(),
    };
    let answer = sm.apply(&LogEntry::new(2, 1, cmd2.encode())).unwrap();
    assert_eq!(sm.workload_status("wl-1"), Some("running"));
    assert_eq!(answer, b"workload wl-1 updated");
}

#[test]
fn idempotent_apply() {
    let mut sm = ClusterStateMachine::new();
    let cmd = ClusterCommand::SubmitWorkload { workload_id: "wl-1".into(), spec: vec![] };
    let entry = LogEntry::new(1, 1, cmd.encode());
    sm.apply(&entry).unwrap();
    sm.apply(&entry).unwrap();
    assert_eq!(sm.workload_count(), 1);
}

#[test]
fn remove_workload() {
    let mut sm = ClusterStateMachine::new();
    let cmd1 = ClusterCommand::SubmitWorkload { workload_id: "wl-1".into(), spec: vec![] };
    sm.apply(&LogEntry::new(1, 1, cmd1.encode())).unwrap();
    let cmd2 = ClusterCommand::RemoveWorkload { workload_id: "wl-1".into() };
    sm.apply(&LogEntry::new(2, 1, cmd2.encode())).unwrap();
    assert!(!sm.has_workload("wl-1"));
}

#[test]
fn lock_state_machine_handles_clean_lock() {
    let sm = Arc::new(Mutex::new(ClusterStateMachine::new()));
    let guard = lock_state_machine(&sm);
    assert!(guard.is_ok());
}

#[test]
fn lock_state_machine_guards_the_machine() {
    let sm = Arc::new(Mutex::new(ClusterStateMachine::new()));
    let cmd = ClusterCommand::SubmitWorkload { workload_id: "wl-1".into(), spec: vec![] };
    match lock_state_machine(&sm) {
        Ok(mut guard) => {
            guard.apply(&LogEntry::new(1, 1, cmd.encode())).unwrap();
        }
        Err(e) => panic!("{}", e.to_string()),
    }
    let count = match lock_state_machine(&sm) {
        Ok(guard) => guard.workload_count(),
        Err(e) => panic!("{}", e.to_string()),
    };
    assert_eq!(count, 1);
}

#[test]
fn poisoned_state_machines_are_recovered() {
    let sm = Arc::new(Mutex::new(ClusterStateMachine::new()));
    let cmd = ClusterCommand::SubmitWorkload { workload_id: "wl-1".into(), spec: vec![] };
    sm.lock().unwrap().apply(&LogEntry::new(1, 1, cmd.encode())).unwrap();
    let poisoned = PoisonError::new(sm.lock().unwrap());
    match lock_outcome(Err(poisoned)) {
        Ok(guard) => assert_eq!(guard.workload_count(), 1),
        Err(e) => panic!("{}", e.to_string()),
    };
    match lock_outcome(Ok(sm.lock().unwrap())) {
        Ok(guard) => assert_eq!(guard.workload_count(), 1),
        Err(e) => panic!("{}", e.to_string()),
    };
}

#[test]
fn commands_are_encoded_as_bincode_does() {
    let cmd = ClusterCommand::SubmitWorkload { workload_id: "wl-1".into(), spec: vec![7, 8] };
    assert_eq!(cmd.encode(), bincode::serialize(&(0u32, "wl-1", vec![7u8, 8])).unwrap());
    let cmd = ClusterCommand::UpdateStatus { workload_id: "a".into(), status: "b".into() };
    assert_eq!(cmd.encode(), bincode::serialize(&(1u32, "a", "b")).unwrap());
    match ClusterCommand::decode(&cmd.encode()).unwrap() {
        ClusterCommand::UpdateStatus { workload_id, status } => {
            assert_eq!((workload_id.as_str(), status.as_str()), ("a", "b"));
        }
        other => panic!("unexpected {:?}", other),
    }
}

#[test]
fn garbled_commands_are_refused() {
    let mut sm = ClusterStateMachine::new();
    match sm.apply(&LogEntry::new(1, 1, vec![0xff; 3])) {
        Err(RaftError::Internal(s)) => {
            assert!(s.starts_with("failed to deserialize cluster command: "), "{s}")
        }
        other => panic!("unexpected {:?}", other),
    }
    assert_eq!(sm.workload_count(), 0);
}

#[test]
fn snapshot_is_json() {
    let mut sm = ClusterStateMachine::new();
    assert_eq!(sm.snapshot(), b"{}");
    let cmd = ClusterCommand::SubmitWorkload { workload_id: "wl-1".into(), spec: vec![1, 2] };
    sm.apply(&LogEntry::new(1, 1, cmd.encode())).unwrap();
    assert_eq!(String::from_utf8(sm.snapshot()).unwrap(), "{\"wl-1\":[[1,2],\"pending\"]}");
}

/// Storage that does everything it is asked to.
fn done() -> StorageReport {
    StorageReport { completed: usize::MAX, error: String::new() }
}

fn empty_log() -> RaftLog {
    RaftLog::new(Ok(Vec::new())).expect("new log")
}

#[test]
fn empty_log_has_zero_indices() {
    let log = empty_log();
    assert_eq!(log.last_index(), 0);
    assert_eq!(log.last_term(), 0);
    assert!(log.is_empty());
}

#[test]
fn append_and_read_back() {
    let mut log = empty_log();
    let e1 = log.append(1, b"cmd-1".to_vec(), &done()).expect("append");
    let e2 = log.append(1, b"cmd-2".to_vec(), &done()).expect("append");
    assert_eq!(e1.index, 1);
    assert_eq!(e2.index, 2);
    assert_eq!(log.last_index(), 2);
    assert_eq!(log.len(), 2);
}

#[test]
fn log_matching_check() {
    let mut log = empty_log();
    log.append(1, b"a".to_vec(), &done()).expect("append");
    let entries = vec![LogEntry::new(2, 1, b"b".to_vec())];
    log.append_entries(1, 1, &entries, &done()).expect("append_entries");
    let entries = vec![LogEntry::new(3, 2, b"c".to_vec())];
    let err = log.append_entries(2, 99, &entries, &done());
    assert!(matches!(
        err,
        Err(RaftError::LogDivergence { index: 2, expected_term: 99, found_term: Some(1) })
    ));
}

#[test]
fn conflicting_entries_are_replaced() {
    let mut log = empty_log();
    for (term, command) in [(1u64, b"a"), (1, b"b"), (1, b"c")] {
        log.append(term, command.to_vec(), &done()).expect("append");
    }
    let entries = vec![LogEntry::new(2, 2, b"x".to_vec())];
    let plan = log.plan_append_entries(1, 1, &entries).expect("plan");
    assert!(matches!(plan[..], [LogOp::Truncate(2), LogOp::Append(_)]));
    log.append_entries(1, 1, &entries, &done()).expect("repair");
    assert_eq!(log.last_index(), 2);
    assert_eq!(log.last_term(), 2);
    assert_eq!(log.entry_at(2).unwrap().command, b"x");
    assert_eq!(log.term_at(3), None);
    let range = log.entries_range(1, 5);
    assert_eq!(range.len(), 2);
}

#[test]
fn failed_storage_leaves_the_log_behind() {
    let mut log = empty_log();
    let report = StorageReport { completed: 0, error: "disk full".into() };
    match log.append(1, b"a".to_vec(), &report) {
        Err(RaftError::StorageFailure(s)) => assert_eq!(s, "disk full"),
        other => panic!("unexpected {:?}", other),
    }
    assert!(log.is_empty());
}

#[test]
fn log_truncations_are_those_of_the_file() {
    assert_eq!(LogOp::wal_index(0), 0);
    assert_eq!(LogOp::wal_index(1), 0);
    assert_eq!(LogOp::wal_index(7), 6);
    assert!(LogOp::truncation_outcome(Ok(())).is_ok());
    assert!(LogOp::truncation_outcome(Err(StorageError::InvalidIndex(3))).is_ok());
    let failure = StorageError::Serialization("bad record".into());
    let text = failure.to_string();
    match LogOp::truncation_outcome(Err(failure)) {
        Err(RaftError::StorageFailure(s)) => assert_eq!(s, text),
        other => panic!("unexpected {:?}", other),
    }
}

#[test]
fn exhausted_counters_are_noticed() {
    let mut node = RaftNode::new(RaftConfig::default(), empty_log());
    assert!(node.has_room(&NodeEvent::ElectionTimeout));
    node.set_term(u64::MAX);
    assert!(!node.has_room(&NodeEvent::ElectionTimeout));
    assert!(node.has_room(&NodeEvent::HeartbeatTick));
    assert!(node.has_room(&NodeEvent::Propose(Vec::new())));
    node.role = Role::Leader;
    assert!(node.has_room(&NodeEvent::ElectionTimeout));
    let ack = |match_index: u64| {
        NodeEvent::Receive(RaftMessage::AppendEntriesResponse {
            term: u64::MAX,
            success: true,
            match_index,
            from: 2,
        })
    };
    assert!(node.has_room(&ack(u64::MAX - 1)));
    assert!(!node.has_room(&ack(u64::MAX)));
}

#[test]
fn commit_and_apply_tracking() {
    let mut log = empty_log();
    log.append(1, b"x".to_vec(), &done()).expect("append");
    log.append(1, b"y".to_vec(), &done()).expect("append");
    log.set_commit_index(2);
    assert_eq!(log.commit_index(), 2);
    let unapplied = log.unapplied_entries();
    assert_eq!(unapplied.len(), 2);
    log.set_last_applied(2);
    assert!(log.unapplied_entries().is_empty());
}

#[test]
fn recovery_restores_the_log() {
    let mut file = Vec::new();
    let (mut wal, _) = Wal::open(&file).expect("open");
    let mut log = empty_log();
    for command in [b"a", b"b"] {
        let entry = log.append(3, command.to_vec(), &done()).expect("append");
        file.extend(wal.append(entry.into()));
        wal.advance();
    }
    let back = RaftLog::new(Wal::read_all(&file)).expect("recover");
    assert_eq!(back.entries, log.entries);
    assert_eq!(LogOp::wal_index(2), 1);
}

fn node(id: u64) -> RaftNode {
    let config = RaftConfig { node_id: id, peers: vec![1, 2, 3], ..RaftConfig::default() };
    RaftNode::new(config, empty_log())
}

#[test]
fn node_starts_as_follower() {
    let node = RaftNode::new(RaftConfig::default(), empty_log());
    assert_eq!(node.role(), Role::Follower);
    assert_eq!(node.term(), 0);
}

#[test]
fn step_down_on_higher_term() {
    let mut node = RaftNode::new(RaftConfig::default(), empty_log());
    node.set_term(5);
    node.role = Role::Leader;
    assert!(node.maybe_step_down(10));
    assert_eq!(node.role(), Role::Follower);
    assert_eq!(node.term(), 10);
    assert!(!node.maybe_step_down(9));
    assert_eq!(node.term(), 10);
}

#[test]
fn commit_index_advances_on_quorum() {
    let mut log = empty_log();
    log.append(1, b"a".to_vec(), &done()).expect("append");
    log.append(1, b"b".to_vec(), &done()).expect("append");
    let config = RaftConfig { node_id: 1, peers: vec![1, 2, 3], ..RaftConfig::default() };
    let mut node = RaftNode::new(config, log);
    node.set_term(1);
    node.role = Role::Leader;
    node.match_index.insert(2, 2);
    node.match_index.insert(3, 1);
    node.try_advance_commit_index();
    assert_eq!(node.log.commit_index(), 2);
}

#[test]
fn entries_of_earlier_terms_are_not_committed_by_counting() {
    let mut log = empty_log();
    log.append(1, b"a".to_vec(), &done()).expect("append");
    let config = RaftConfig { node_id: 1, peers: vec![1, 2, 3], ..RaftConfig::default() };
    let mut node = RaftNode::new(config, log);
    node.set_term(2);
    node.role = Role::Leader;
    node.match_index.insert(2, 1);
    node.match_index.insert(3, 1);
    node.try_advance_commit_index();
    assert_eq!(node.log.commit_index(), 0);
}

#[test]
fn random_timeouts_are_in_range() {
    let node = node(1);
    let (min, max) = node.config.election_timeout_range();
    let drawn: Vec<u64> = (0..200).map(|_| node.random_election_timeout()).collect();
    assert!(drawn.iter().all(|t| min <= *t && *t < max));
    assert!(drawn.iter().any(|t| *t != drawn[0]));
}

/// Nodes that exchange messages without loss.
struct Cluster {
    nodes: Vec<RaftNode>,
    machines: Vec<ClusterStateMachine>,
}

impl Cluster {
    fn new() -> Self {
        Cluster {
            nodes: (1..=3).map(node).collect(),
            machines: (0..3).map(|_| ClusterStateMachine::new()).collect(),
        }
    }

    /// Let a node react to an event and deliver everything that follows.
    fn run(&mut self, at: usize, event: NodeEvent) -> NodeOutput {
        let mut first = self.nodes[at].handle_event(event, &done());
        let mut queue: Vec<_> = first.sends.drain(..).collect();
        while !queue.is_empty() {
            let out = queue.remove(0);
            let to = (out.to - 1) as usize;
            let reaction = self.nodes[to].handle_event(NodeEvent::Receive(out.msg), &done());
            queue.extend(reaction.sends);
        }
        for (node, machine) in self.nodes.iter_mut().zip(self.machines.iter_mut()) {
            node.apply_committed_entries(machine);
        }
        first
    }
}

#[test]
fn a_candidate_wins_and_replicates() {
    let mut cluster = Cluster::new();
    cluster.run(0, NodeEvent::ElectionTimeout);
    assert_eq!(cluster.nodes[0].role(), Role::Leader);
    assert_eq!(cluster.nodes[0].term(), 1);
    assert_eq!(cluster.nodes[1].role(), Role::Follower);

    let out = cluster.run(1, NodeEvent::Propose(vec![1]));
    assert!(matches!(out.reply, Some(Err(RaftError::NotLeader { leader: Some(1) }))));

    let out = cluster.run(0, NodeEvent::Propose(b"command".to_vec()));
    assert!(matches!(out.reply, Some(Ok(ProposalResponse { index: 1, term: 1 }))));
    cluster.run(0, NodeEvent::HeartbeatTick);
    cluster.run(0, NodeEvent::HeartbeatTick);
    for node in &cluster.nodes {
        assert_eq!(node.log.last_index(), 1);
        assert_eq!(node.log.commit_index(), 1);
    }
}

#[test]
fn votes_are_not_given_twice() {
    let mut voter = node(1);
    for (candidate, granted) in [(2u64, true), (3, false), (2, true)] {
        let request = RaftMessage::RequestVote {
            term: 1,
            candidate_id: candidate,
            last_log_index: 0,
            last_log_term: 0,
        };
        let out = voter.handle_event(NodeEvent::Receive(request), &done());
        assert_eq!(out.sends.len(), 1);
        assert!(matches!(
            out.sends[0].msg,
            RaftMessage::RequestVoteResponse { vote_granted, .. } if vote_granted == granted
        ));
    }
}

#[test]
fn a_vote_outlasts_other_events_of_the_term() {
    let mut voter = node(1);
    voter.set_term(4);
    assert!(matches!(
        voter.handle_request_vote(4, 2, 0, 0)[0].msg,
        RaftMessage::RequestVoteResponse { term: 4, vote_granted: true, from: 1 }
    ));
    voter.handle_event(NodeEvent::HeartbeatTick, &done());
    voter.handle_event(NodeEvent::Propose(b"x".to_vec()), &done());
    let out = voter.handle_request_vote(4, 3, 100, 4);
    assert_eq!(out[0].to, 3);
    assert!(matches!(
        out[0].msg,
        RaftMessage::RequestVoteResponse { term: 4, vote_granted: false, from: 1 }
    ));
    assert_eq!(voter.voted_for, Some(2));
}

#[test]
fn deposed_leaders_draw_an_election_timeout() {
    let mut leader = node(1);
    leader.set_term(3);
    leader.role = Role::Leader;
    let answer = |term: u64| {
        NodeEvent::Receive(RaftMessage::AppendEntriesResponse {
            term,
            success: false,
            match_index: 0,
            from: 2,
        })
    };
    assert!(!leader.handle_event(answer(3), &done()).reset_election_timer);
    assert_eq!(leader.role(), Role::Leader);
    assert!(leader.handle_event(answer(4), &done()).reset_election_timer);
    assert_eq!(leader.role(), Role::Follower);
}

#[test]
fn refusals_back_up_whatever_their_term() {
    let mut leader = node(1);
    leader.set_term(3);
    leader.role = Role::Leader;
    leader.next_index.insert(2, 5);
    for term in [3, 1] {
        let refusal = RaftMessage::AppendEntriesResponse {
            term,
            success: false,
            match_index: 0,
            from: 2,
        };
        leader.handle_event(NodeEvent::Receive(refusal), &done());
    }
    assert_eq!(leader.next_index.get(&2), Some(&3));
    let stale = RaftMessage::AppendEntriesResponse { term: 1, success: true, match_index: 4, from: 2 };
    leader.handle_event(NodeEvent::Receive(stale), &done());
    assert_eq!(leader.next_index.get(&2), Some(&3));
    assert_eq!(leader.match_index.get(&2), None);
}

#[test]
fn pre_votes_do_not_raise_terms() {
    let mut voter = node(1);
    let request = RaftMessage::PreVote {
        term: 7,
        candidate_id: 2,
        last_log_index: 0,
        last_log_term: 0,
    };
    voter.handle_event(NodeEvent::Receive(request), &done());
    assert_eq!(voter.term(), 0);
    assert_eq!(voter.voted_for, None);
}

#[test]
fn a_lone_member_leads_and_commits() {
    for pre_vote_enabled in [true, false] {
        let config = RaftConfig {
            node_id: 7,
            peers: vec![7],
            pre_vote_enabled,
            ..RaftConfig::default()
        };
        let mut node = RaftNode::new(config, empty_log());
        let out = node.handle_event(NodeEvent::Propose(vec![1]), &done());
        assert!(matches!(out.reply, Some(Err(RaftError::NotLeader { leader: None }))));

        let out = node.handle_event(NodeEvent::ElectionTimeout, &done());
        assert!(out.sends.is_empty());
        assert!(out.reset_election_timer);
        assert_eq!(node.role(), Role::Leader);
        assert_eq!(node.term(), 1);
        assert_eq!(node.voted_for, Some(7));
        assert_eq!(node.leader_id, Some(7));

        for index in 1..=2 {
            let out = node.handle_event(NodeEvent::Propose(vec![9]), &done());
            assert!(out.sends.is_empty());
            match out.reply {
                Some(Ok(r)) => assert_eq!((r.index, r.term), (index, 1)),
                _ => panic!("the proposal was refused"),
            }
            assert_eq!(node.log.commit_index(), index);
        }
    }
}

#[test]
fn a_lone_member_commits_recovered_entries_with_its_own() {
    let mut log = empty_log();
    log.append(1, b"a".to_vec(), &done()).expect("append");
    let config = RaftConfig { node_id: 1, peers: vec![1], ..RaftConfig::default() };
    let mut node = RaftNode::new(config, log);
    node.set_term(1);
    node.handle_event(NodeEvent::ElectionTimeout, &done());
    assert_eq!(node.role(), Role::Leader);
    assert_eq!(node.term(), 2);
    assert_eq!(node.log.commit_index(), 0);
    node.handle_event(NodeEvent::Propose(b"b".to_vec()), &done());
    assert_eq!(node.log.commit_index(), 2);
}

#[test]
fn back_pressure_limits_proposals() {
    let config = RaftConfig {
        node_id: 1,
        peers: vec![1, 2, 3],
        max_uncommitted_entries: 1,
        ..RaftConfig::default()
    };
    let mut leader = RaftNode::new(config, empty_log());
    leader.set_term(1);
    leader.role = Role::Leader;
    let out = leader.handle_event(NodeEvent::Propose(vec![1]), &done());
    assert!(matches!(out.reply, Some(Ok(_))));
    let out = leader.handle_event(NodeEvent::Propose(vec![2]), &done());
    assert!(matches!(out.reply, Some(Err(RaftError::BackPressure { count: 1 }))));
}

#[test]
fn test_end_to_end_orchestration_pipeline() {
    let mut cluster = Cluster::new();
    cluster.run(0, NodeEvent::ElectionTimeout);

    let spec = WorkloadSpec::new(
        "wl-nginx",
        "web-server",
        "nginx:alpine",
        ResourceSpec::new(500, 256),
        1,
    );
    let cmd = ClusterCommand::SubmitWorkload {
        workload_id: spec.id.clone(),
        spec: bincode::serialize(&(&spec.id, &spec.name, &spec.image, 500u64, 256u64, 1u32)).unwrap(),
    };
    let redirect = cluster.run(1, NodeEvent::Propose(cmd.encode()));
    assert!(matches!(redirect.reply, Some(Err(RaftError::NotLeader { leader: Some(1) }))));
    let index = match cluster.run(0, NodeEvent::Propose(cmd.encode())).reply {
        Some(Ok(response)) => response.index,
        other => panic!("unexpected {:?}", other),
    };
    cluster.run(0, NodeEvent::HeartbeatTick);
    cluster.run(0, NodeEvent::HeartbeatTick);
    for machine in &cluster.machines {
        let workloads = String::from_utf8_lossy(&machine.snapshot()).to_string();
        assert!(workloads.contains("wl-nginx"));
    }

    let scheduler = FirstFitDecreasingScheduler::with_default_scorer();
    let mut workers = vec![
        Node::new("worker-1", "127.0.0.1:9001", ResourceSpec::new(1000, 512)),
        Node::new("worker-2", "127.0.0.1:9002", ResourceSpec::new(2000, 1024)),
    ];
    for n in &mut workers {
        n.status = NodeStatus::Ready;
    }
    let container = Container::new(
        "c-nginx-1",
        "nginx-replica-1",
        "nginx:alpine",
        ResourceSpec::new(500, 256),
    );
    let selected = scheduler.select_node(&workers, &container).expect("schedule container");
    assert_eq!(selected.as_str(), "worker-1");

    let runtime = ContainerRuntime::new("/tmp/leviathan/runtime");
    let mut container_spec = ContainerSpec::new(container.id.as_str(), container.image.as_str());
    container_spec.command = vec!["nginx".into(), "-g".into(), "daemon off;".into()];
    container_spec.resources = container.resources;
    container_spec.namespaces = NamespaceConfig::none();
    container_spec.network = None;
    let mut execution = runtime.spawn_container(&container_spec);
    while execution.current().is_some() {
        execution.report(Ok(())).expect("spawn container");
    }
    assert_eq!(runtime.spawned(&execution), Some(ContainerState::Created));

    let proxy_config = ProxyConfig {
        listen_addr: Endpoint { host: "127.0.0.1".into(), port: 0 },
        upstream_addr: Endpoint { host: "127.0.0.1".into(), port: 80 },
        container_id: container.id.as_str().to_string(),
        mtls_enabled: true,
        trace_enabled: true,
    };
    let tls_config = match TlsConfig::self_signed_for_testing() {
        Ok(tls_config) => tls_config,
        Err(e) => panic!("generate self-signed certs: {}", e.to_string()),
    };
    let proxy = SidecarProxy::new(proxy_config, Some(tls_config));
    assert_eq!(proxy.listen_addr().port, 0);
    match proxy.handle(ProxyEvent::Accepted, 1) {
        ProxyAction::Forward { upstream, traceparent, terminate_tls } => {
            assert_eq!(upstream.port, 80);
            assert!(traceparent.is_some() && terminate_tls);
        }
        other => panic!("unexpected {:?}", other),
    }

    let metrics = MetricsRegistry::new();
    metrics.raft_term.set(index as i64);
    metrics.raft_role.set(2);
    metrics.scheduler_placement_latency.observe(0.002);
    metrics.container_start_time.observe(0.25);
    let encoded_metrics = metrics.encode();
    assert!(encoded_metrics.contains("raft_term"));
    assert!(encoded_metrics.contains("raft_role"));
    assert!(encoded_metrics.contains("scheduler_placement_seconds"));
    assert!(encoded_metrics.contains("container_start_seconds"));

    assert!(matches!(
        proxy.handle(ProxyEvent::ShutdownChanged { requested: true }, 1),
        ProxyAction::Stop
    ));
}
