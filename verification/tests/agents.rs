use daft::agent::error::AgentError;
use daft::agent::heartbeat::{AgentLiveness, HeartbeatSubsystem};
use daft::agent::identity::{AgentIdentity, AgentType};
use daft::agent::mailbox::{LegacyInboxMessage, MailboxManager};
use daft::agent::message::{AgentMessage, MessageStamp};
use daft::agent::registry::{AgentRegistry, LegacyAgentFile, LegacyAgentRecord, RegistryFile, RegistryStore};
use daft::clock::UtcTime;
use daft::agent::status::{
    staged_changes, str_lt, unstaged_changes, untracked_files, FileEntry, IndexFileState,
    StatusAggregator, WorkspaceState,
};

fn stamp(nanos: i64, counter: u64) -> MessageStamp {
    MessageStamp { nanos, secs: 1_700_000_000, iso: "2023-11-14T22:13:20+00:00".to_string(), pid: 77, counter }
}

#[test]
fn agent_types_read_in_any_case() {
    assert_eq!(AgentType::parse("Human"), Ok(AgentType::Human));
    assert_eq!(AgentType::parse("AI"), Ok(AgentType::Ai));
    assert_eq!(
        AgentType::parse("Robot"),
        Err("Unknown agent type: 'robot'. Valid options: human, ai".to_string())
    );
    assert_eq!("ai".parse::<AgentType>(), Ok(AgentType::Ai));
}

#[test]
fn agent_names_are_checked() {
    assert!(AgentIdentity::validate_name("agent-alice_1.0").is_ok());
    assert_eq!(
        AgentIdentity::validate_name(""),
        Err(AgentError::InvalidAgentName("".to_string(), "Name cannot be empty".to_string()))
    );
    assert_eq!(
        AgentIdentity::validate_name("a/b"),
        Err(AgentError::InvalidAgentName(
            "a/b".to_string(),
            "Name cannot contain path separators or null bytes".to_string()
        ))
    );
    assert_eq!(
        AgentIdentity::validate_name("bad name"),
        Err(AgentError::InvalidAgentName(
            "bad name".to_string(),
            "Name must contain only alphanumeric, dash, underscore, or dot characters".to_string()
        ))
    );
}

#[test]
fn register_then_get_and_assign() {
    let reg = AgentRegistry::new(".dft");
    assert_eq!(reg.registry_path(), ".dft/agents/registry.json");
    assert_eq!(reg.legacy_agent_path("alice"), ".dft/agents/alice.json");
    let mut store = RegistryStore { version: 1, agents: Vec::new() };
    let alice = reg
        .register(&mut store, "agent-alice", AgentType::Ai, vec!["coding".to_string()], false, 100)
        .unwrap();
    assert_eq!(alice.id, "agent-agent-alice");
    assert_eq!(alice.assigned_dimension, Some("mainline".to_string()));
    assert_eq!(alice.registered_at, 100);
    let bob = reg
        .register(&mut store, "human-bob", AgentType::Human, vec!["review".to_string()], false, 200)
        .unwrap();
    assert_eq!(bob.agent_type, AgentType::Human);
    assert_eq!(
        reg.register(&mut store, "human-bob", AgentType::Human, vec![], false, 300).unwrap_err(),
        AgentError::AgentAlreadyExists("human-bob".to_string())
    );
    assert_eq!(
        reg.register(&mut store, "carol", AgentType::Ai, vec![], true, 300).unwrap_err(),
        AgentError::AgentAlreadyExists("carol".to_string())
    );
    assert_eq!(store.agents.len(), 2);
    assert_eq!(reg.get(&store, "agent-agent-alice").unwrap().name, "agent-alice");
    assert_eq!(reg.get(&store, "human-bob").unwrap().capabilities, vec!["review".to_string()]);
    assert_eq!(reg.get(&store, "nobody").unwrap_err(), AgentError::AgentNotFound("nobody".to_string()));

    let moved = reg.assign(&mut store, "agent-alice", "feature-auth", true).unwrap();
    assert_eq!(moved.assigned_dimension, Some("feature-auth".to_string()));
    assert_eq!(
        reg.get(&store, "agent-alice").unwrap().assigned_dimension,
        Some("feature-auth".to_string())
    );
    assert_eq!(
        reg.assign(&mut store, "agent-alice", "non-existent-dim", false).unwrap_err(),
        AgentError::DimensionNotFound("non-existent-dim".to_string())
    );
    assert!(reg.validate_dimension_exists("mainline", false).is_ok());
    let listed = reg.list(store);
    assert_eq!(listed.len(), 2);
    assert_eq!(listed[1].name, "human-bob");
}

#[test]
fn message_ids_and_deliveries() {
    let mb = MailboxManager::new(".dft");
    let d = mb.send("sender-bot", "receiver-bot", "task", "Implement feature X", &stamp(5, 1));
    assert_eq!(d.message.id, "msg-5-77-1");
    assert_eq!(d.message.recipient, Some("receiver-bot".to_string()));
    assert!(!d.message.read);
    assert_eq!(d.tmp_path, ".dft/messages/receiver-bot/tmp/msg-5-77-1.json");
    assert_eq!(d.new_path, ".dft/messages/receiver-bot/new/msg-5-77-1.json");
    let b = mb.broadcast("sender-bot", "sync", "Broadcast announcement", &stamp(-3, 2));
    assert_eq!(b.message.id, "msg--3-77-2");
    assert_eq!(b.message.recipient, None);
    assert_eq!(b.box_dir, ".dft/messages/broadcast");
    assert_ne!(d.message.id, b.message.id);
    let direct = AgentMessage::new_direct("a", "b", "s", "x", &stamp(5, 2));
    assert_ne!(direct.id, d.message.id);
    assert_eq!(mb.read_boxes(Some("bob")), vec!["bob".to_string(), "broadcast".to_string()]);
    assert_eq!(mb.read_boxes(None), vec!["broadcast".to_string()]);
    assert_eq!(mb.legacy_inbox_file(), ".dft/agents/global_inbox.json");
    assert_eq!(HeartbeatSubsystem::new(".dft").heartbeat_file("w1"), ".dft/agents/w1/heartbeat.json");
}

#[test]
fn paths_sort_as_strings_do() {
    assert!(str_lt("a", "b"));
    assert!(str_lt("a", "ab"));
    assert!(!str_lt("ab", "a"));
    assert!(!str_lt("x", "x"));
    assert!(str_lt("Z", "a"));
}

fn fe(p: &str, o: &str) -> FileEntry {
    FileEntry { path: p.to_string(), oid: o.to_string() }
}

#[test]
fn staged_changes_walk_both_lists_in_order() {
    let head = vec![fe("a.txt", "1"), fe("b.txt", "2"), fe("d.txt", "4")];
    let index = vec![fe("a.txt", "1"), fe("b.txt", "9"), fe("c.txt", "3")];
    assert_eq!(
        staged_changes(&head, &index),
        vec!["b.txt".to_string(), "c.txt".to_string(), "deleted: d.txt".to_string()]
    );
    assert_eq!(staged_changes(&vec![], &vec![]), Vec::<String>::new());
}

#[test]
fn unstaged_and_untracked_files() {
    let states = vec![
        IndexFileState { path: "gone.rs".to_string(), exists: false, disk_len: None, file_size: 3 },
        IndexFileState { path: "grown.rs".to_string(), exists: true, disk_len: Some(20), file_size: 14 },
        IndexFileState { path: "same.rs".to_string(), exists: true, disk_len: Some(14), file_size: 14 },
        IndexFileState { path: "unreadable.rs".to_string(), exists: true, disk_len: None, file_size: 1 },
    ];
    assert_eq!(unstaged_changes(&states), vec!["deleted: gone.rs".to_string(), "grown.rs".to_string()]);
    let files = vec!["src/lib.rs".to_string(), "notes.txt".to_string()];
    let indexed = vec!["src/lib.rs".to_string()];
    assert_eq!(untracked_files(&files, &indexed), vec!["notes.txt".to_string()]);
}

#[test]
fn status_report_counts_each_agent_once() {
    let reg = AgentRegistry::new(".dft");
    let mut store = RegistryStore { version: 1, agents: Vec::new() };
    reg.register(&mut store, "bot-1", AgentType::Ai, vec![], false, 0).unwrap();
    reg.register(&mut store, "bot-2", AgentType::Ai, vec![], false, 0).unwrap();
    reg.register(&mut store, "bot-3", AgentType::Human, vec![], false, 0).unwrap();
    reg.assign(&mut store, "bot-2", "dim-dev", true).unwrap();
    let agents = store.agents;
    let chosen = StatusAggregator::select_agents(&agents, Some("agent-bot-2"));
    assert_eq!(chosen.len(), 1);
    assert_eq!(StatusAggregator::select_agents(&agents, None).len(), 3);
    let now = 1000u64;
    let hbs = vec![Some(990), Some(800), None];
    let ws = vec![
        WorkspaceState {
            last_commit_oid: Some("abc".to_string()),
            last_commit_message: Some("first line\nsecond".to_string()),
            staged_files: vec!["src/lib.rs".to_string()],
            modified_files: vec![],
            untracked_files: vec!["x".to_string(), "y".to_string()],
        },
        WorkspaceState {
            last_commit_oid: None,
            last_commit_message: None,
            staged_files: vec![],
            modified_files: vec![],
            untracked_files: vec![],
        },
        WorkspaceState {
            last_commit_oid: None,
            last_commit_message: None,
            staged_files: vec![],
            modified_files: vec!["m".to_string()],
            untracked_files: vec![],
        },
    ];
    let report = StatusAggregator::new(".dft").aggregate(now, &agents, &hbs, &ws);
    assert_eq!(report.timestamp, 1000);
    assert_eq!(report.total_agents, 3);
    assert_eq!((report.active_agents, report.idle_agents, report.offline_agents), (1, 1, 1));
    assert_eq!(report.active_agents + report.idle_agents + report.offline_agents, report.total_agents);
    let a = &report.agents[0];
    assert_eq!(a.liveness, AgentLiveness::Active);
    assert_eq!(a.seconds_since_heartbeat, Some(10));
    assert_eq!(a.last_commit_message, Some("first line".to_string()));
    assert_eq!(a.total_dirty_files, 3);
    assert_eq!(a.assigned_dimension, "mainline");
    assert_eq!(report.agents[1].assigned_dimension, "dim-dev");
    assert_eq!(report.agents[1].liveness, AgentLiveness::Idle);
    assert_eq!(report.agents[2].seconds_since_heartbeat, None);
    assert_eq!(report.agents[2].liveness, AgentLiveness::Offline);
}

fn empty_workspace() -> WorkspaceState {
    WorkspaceState {
        last_commit_oid: None,
        last_commit_message: None,
        staged_files: vec![],
        modified_files: vec![],
        untracked_files: vec![],
    }
}

#[test]
fn test_agent_register_and_list() {
    let reg = AgentRegistry::new(".dft");
    let mut store = reg.load_registry(RegistryFile::Absent, &vec![], 0);
    let a1 = reg.register(&mut store, "agent-alice", AgentType::Ai, vec!["coding".into()], false, 10).unwrap();
    assert_eq!(a1.name, "agent-alice");
    assert_eq!(a1.agent_type, AgentType::Ai);
    assert_eq!(a1.assigned_dimension.as_deref(), Some("mainline"));

    let a2 = reg.register(&mut store, "human-bob", AgentType::Human, vec!["review".into()], false, 11).unwrap();
    assert_eq!(a2.name, "human-bob");
    assert_eq!(a2.agent_type, AgentType::Human);

    let list = reg.list(store.clone());
    assert_eq!(list.len(), 2);

    // Duplicate name fails
    let dup = reg.register(&mut store, "agent-alice", AgentType::Ai, vec![], false, 12);
    assert!(dup.is_err());
}

#[test]
fn test_agent_assign_dimension() {
    let reg = AgentRegistry::new(".dft");
    let mut store = reg.load_registry(RegistryFile::Absent, &vec![], 0);
    reg.register(&mut store, "agent-auth", AgentType::Ai, vec![], false, 0).unwrap();

    // Assign to valid dimension (its directory exists)
    let assigned = reg.assign(&mut store, "agent-auth", "feature-auth", true).unwrap();
    assert_eq!(assigned.assigned_dimension.as_deref(), Some("feature-auth"));

    // Assign to non-existent dimension fails
    let bad_assign = reg.assign(&mut store, "agent-auth", "non-existent-dim", false);
    assert!(bad_assign.is_err());
}

#[test]
fn test_agent_heartbeat_and_liveness() {
    let hbs = HeartbeatSubsystem::new(".dft");
    let hb = hbs.record("worker-node", Some("mainline"), Some("ready"), 4242);
    assert_eq!(hb.agent_name, "worker-node");
    assert_eq!(hb.dimension.as_deref(), Some("mainline"));
    assert_eq!(hb.message.as_deref(), Some("ready"));

    let liveness = hbs.liveness(&Some(hb.clone()));
    assert_eq!(liveness, AgentLiveness::Active);

    // Simulated time jumps
    let now = hb.timestamp;
    assert_eq!(AgentLiveness::evaluate(Some(now), now + 30), AgentLiveness::Active);
    assert_eq!(AgentLiveness::evaluate(Some(now), now + 120), AgentLiveness::Idle);
    assert_eq!(AgentLiveness::evaluate(Some(now), now + 600), AgentLiveness::Offline);
}

#[test]
fn test_agent_mailbox_messaging() {
    let mb = MailboxManager::new(".dft");
    let bmsg = mb.broadcast("sender-bot", "sync", "Broadcast announcement", &stamp(1, 1)).message;
    assert_eq!(bmsg.sender, "sender-bot");
    assert_eq!(bmsg.body, "Broadcast announcement");

    let dmsg = mb.send("sender-bot", "receiver-bot", "task", "Implement feature X", &stamp(2, 2)).message;
    assert_eq!(dmsg.recipient.as_deref(), Some("receiver-bot"));

    // Receiver inbox should see both direct and broadcast messages
    let inbox = mb.inbox(&vec![bmsg.clone()], &vec![], &vec![dmsg.clone()], &vec![], &vec![], 0, false);
    assert!(inbox.len() >= 2);
    assert!(inbox.iter().any(|m| m.body == "Broadcast announcement"));
    assert!(inbox.iter().any(|m| m.body == "Implement feature X"));

    // Marking the direct message read moves it to the read folder
    let unread = mb.inbox(&vec![bmsg.clone()], &vec![], &vec![], &vec![dmsg.clone()], &vec![], 0, true);
    assert!(!unread.iter().any(|m| m.id == dmsg.id));
}

#[test]
fn test_agent_status_aggregation() {
    let reg = AgentRegistry::new(".dft");
    let mut store = reg.load_registry(RegistryFile::Absent, &vec![], 0);
    reg.register(&mut store, "bot-1", AgentType::Ai, vec![], false, 0).unwrap();
    let agents = reg.list(store);
    let status = StatusAggregator::new(".dft").aggregate_for(100, &agents, None, &vec![None], &vec![empty_workspace()]);
    assert_eq!(status.total_agents, 1);
    assert_eq!(status.agents[0].name, "bot-1");
}

#[test]
fn test_agent_status_staged_files() {
    // The index of `dim-dev` stages src/lib.rs, which is neither committed nor on disk.
    let index = vec![FileEntry { path: "src/lib.rs".to_string(), oid: "b10b".to_string() }];
    let staged = staged_changes(&vec![], &index);
    let states = vec![IndexFileState { path: "src/lib.rs".to_string(), exists: false, disk_len: None, file_size: 14 }];
    let modified = unstaged_changes(&states);
    let ws = WorkspaceState { staged_files: staged, modified_files: modified, ..empty_workspace() };

    let reg = AgentRegistry::new(".dft");
    let mut store = reg.load_registry(RegistryFile::Absent, &vec![], 0);
    reg.register(&mut store, "agent-dev", AgentType::Ai, vec![], false, 0).unwrap();
    reg.assign(&mut store, "agent-dev", "dim-dev", true).unwrap();
    let chosen = StatusAggregator::select_agents(&reg.list(store), Some("agent-dev"));

    let status = StatusAggregator::new(".dft").aggregate(100, &chosen, &vec![None], &vec![ws]);
    assert_eq!(status.agents.len(), 1);
    assert_eq!(status.agents[0].staged_files, vec!["src/lib.rs".to_string()]);
    assert_eq!(status.agents[0].total_dirty_files, 2); // 1 staged + 1 unstaged deleted (since not yet on disk)
}

fn msg(id: &str, sender: &str, body: &str, iso: &str) -> AgentMessage {
    AgentMessage {
        id: id.to_string(),
        sender: sender.to_string(),
        recipient: None,
        timestamp: 0,
        timestamp_iso: iso.to_string(),
        subject: "s".to_string(),
        body: body.to_string(),
        read: false,
        dimension: None,
        in_reply_to: None,
    }
}

#[test]
fn inbox_merges_legacy_entries_and_sorts_by_time() {
    let mb = MailboxManager::new(".dft");
    let bn = vec![msg("b2", "x", "late", "2024-01-03"), msg("b1", "x", "early", "2024-01-01")];
    let bc = vec![msg("b0", "y", "old", "2024-01-02")];
    let own_new = vec![msg("d1", "z", "same", "2024-01-02")];
    let legacy = vec![
        LegacyInboxMessage { sender: "x".into(), content: "late".into(), timestamp: "2023".into() },
        LegacyInboxMessage { sender: "w".into(), content: "hi".into(), timestamp: "2024-01-00".into() },
        LegacyInboxMessage { sender: "w".into(), content: "hi".into(), timestamp: "2025".into() },
    ];
    let all = mb.inbox(&bn, &bc, &own_new, &vec![], &legacy, 77, false);
    let ids: Vec<&str> = all.iter().map(|m| m.id.as_str()).collect();
    // Stamped alike, b0 (read first) stays before d1.
    assert_eq!(ids, vec!["legacy-1", "b1", "b0", "d1", "b2"]);
    assert!(all[2].read);
    assert!(!all[3].read);
    assert_eq!(all[0].timestamp, 77);
    assert_eq!(all[0].subject, "broadcast");
    let unread = mb.inbox(&bn, &bc, &own_new, &vec![], &legacy, 77, true);
    let ids: Vec<&str> = unread.iter().map(|m| m.id.as_str()).collect();
    assert_eq!(ids, vec!["legacy-1", "b1", "d1", "b2"]);
}

#[test]
fn registry_loading_adds_legacy_records() {
    let reg = AgentRegistry::new(".dft");
    let rec = |name: &str, t: &str| LegacyAgentRecord {
        name: name.to_string(),
        agent_type: t.to_string(),
        dimension: "dim-x".to_string(),
        last_heartbeat: "".to_string(),
    };
    let files = vec![
        LegacyAgentFile { file_name: "registry.json".into(), record: Some(rec("r", "ai")) },
        LegacyAgentFile { file_name: "old-bot.json".into(), record: Some(rec("old-bot", "Human")) },
        LegacyAgentFile { file_name: "old-bot.json.json".into(), record: Some(rec("twice", "ai")) },
        LegacyAgentFile { file_name: ".json".into(), record: Some(rec("dot", "ai")) },
        LegacyAgentFile { file_name: "notes.txt".into(), record: Some(rec("notes", "ai")) },
        LegacyAgentFile { file_name: "broken.json".into(), record: None },
        LegacyAgentFile { file_name: "robot.json".into(), record: Some(rec("robot", "toaster")) },
    ];
    let store = reg.load_registry(RegistryFile::Malformed, &files, 5);
    assert_eq!(store.version, 0);
    let names: Vec<&str> = store.agents.iter().map(|a| a.name.as_str()).collect();
    assert_eq!(names, vec!["old-bot", "robot"]);
    assert_eq!(store.agents[0].id, "agent-old-bot");
    assert_eq!(store.agents[0].agent_type, AgentType::Human);
    assert_eq!(store.agents[0].assigned_dimension.as_deref(), Some("dim-x"));
    assert_eq!(store.agents[1].agent_type, AgentType::Ai);
    assert_eq!(store.agents[1].registered_at, 5);
    assert_eq!(reg.load_registry(RegistryFile::Absent, &vec![], 0).version, 1);

    let rec = AgentRegistry::legacy_record(&store.agents[0], "2024-01-01T00:00:00+00:00");
    assert_eq!(rec.agent_type, "human");
    assert_eq!(rec.dimension, "dim-x");
}

#[test]
fn heartbeats_fall_back_to_the_legacy_record() {
    let hbs = HeartbeatSubsystem::new(".dft");
    let got = hbs
        .get("w", None, Some("2023-11-14T22:13:20+00:00".to_string()), Some("dim".to_string()))
        .unwrap();
    assert_eq!(got.timestamp, 1_700_000_000);
    assert_eq!(got.pid, 0);
    assert_eq!(got.dimension.as_deref(), Some("dim"));
    assert!(hbs.get("w", None, Some("yesterday".to_string()), None).is_none());
    assert!(hbs.get("w", None, None, None).is_none());
    let rec = hbs.record_at("w", None, None, UtcTime { secs: 1_700_000_000, nanos: 0 }, 9);
    assert_eq!(rec.timestamp_iso, "2023-11-14T22:13:20+00:00");
    assert_eq!(hbs.get("w", Some(rec.clone()), None, None).unwrap().pid, 9);
}

#[test]
fn errors_read_as_messages() {
    assert_eq!(AgentError::AgentAlreadyExists("x".into()).message(), "Agent 'x' already exists");
    assert_eq!(
        AgentError::InvalidAgentName("a/b".into(), "bad".into()).message(),
        "Invalid agent name 'a/b': bad"
    );
    assert_eq!(AgentError::General("boom".into()).message(), "General agent error: boom");
}

#[test]
fn status_report_for_a_target_covers_only_that_agent() {
    let reg = AgentRegistry::new(".dft");
    let mut store = RegistryStore { version: 1, agents: Vec::new() };
    reg.register(&mut store, "bot-1", AgentType::Ai, vec![], false, 0).unwrap();
    reg.register(&mut store, "bot-2", AgentType::Ai, vec![], false, 0).unwrap();
    reg.register(&mut store, "bot-3", AgentType::Human, vec![], false, 0).unwrap();
    let agents = store.agents;
    let hbs = vec![Some(990), Some(800), None];
    let ws = vec![
        empty_workspace(),
        empty_workspace(),
        WorkspaceState { modified_files: vec!["m".to_string()], ..empty_workspace() },
    ];
    let agg = StatusAggregator::new(".dft");
    let by_name = agg.aggregate_for(1000, &agents, Some("bot-3"), &hbs, &ws);
    assert_eq!(by_name.total_agents, 1);
    assert_eq!(by_name.agents[0].name, "bot-3");
    assert_eq!(by_name.agents[0].liveness, AgentLiveness::Offline);
    assert_eq!(by_name.agents[0].total_dirty_files, 1);
    assert_eq!((by_name.active_agents, by_name.idle_agents, by_name.offline_agents), (0, 0, 1));
    let by_id = agg.aggregate_for(1000, &agents, Some("agent-bot-1"), &hbs, &ws);
    assert_eq!(by_id.total_agents, 1);
    assert_eq!(by_id.agents[0].name, "bot-1");
    assert_eq!(by_id.active_agents, 1);
    let nobody = agg.aggregate_for(1000, &agents, Some("bot-9"), &hbs, &ws);
    assert_eq!(nobody.total_agents, 0);
    let all = agg.aggregate_for(1000, &agents, None, &hbs, &ws);
    assert_eq!(all.total_agents, 3);
    assert_eq!((all.active_agents, all.idle_agents, all.offline_agents), (1, 1, 1));
}

#[test]
fn liveness_from_what_the_heartbeat_files_hold() {
    let hbs = HeartbeatSubsystem::new(".dft");
    // Both files unreadable: offline, whatever the time.
    assert_eq!(hbs.liveness_of("w", None, Some("not a time".to_string()), None, 5), AgentLiveness::Offline);
    assert_eq!(hbs.liveness_of("w", None, None, None, 5), AgentLiveness::Offline);
    // A legacy record that reads as RFC 3339.
    assert_eq!(
        hbs.liveness_of("w", None, Some("1970-01-01T00:01:40+00:00".to_string()), None, 130),
        AgentLiveness::Active
    );
    // The stored heartbeat wins over the legacy record.
    let rec = hbs.record_at("w", None, None, UtcTime { secs: 1_000, nanos: 0 }, 1);
    assert_eq!(
        hbs.liveness_of("w", Some(rec), Some("1970-01-01T00:01:40+00:00".to_string()), None, 1_200),
        AgentLiveness::Idle
    );
}
