use daft::agent::identity::AgentType;
use daft::cli::{AgentArgs, BranchArgs, CronosArgs, EntangleArgs, ForeseeArgs, ObserveArgs, RemoteArgs, TerritoryArgs, TimelineArgs};
use daft::commands::agent::{parse_agent_command, AgentCommand};
use daft::commands::awareness::{foresee_pair, parse_observe_command, territory_request, ObserveCommand, TerritoryRequest};
use daft::commands::commit::parse_author_str;
use daft::commands::cronos::{
    apply_config, parse_cronos_command, read_interval, request_changes, worker_step, ConfigError, CronosCommand,
    CronosSettings, IntervalValue, StrategyChecks, WorkerAction,
};
use daft::commands::dimension::{current_dimension_from, current_dimension_text};
use daft::commands::entangle::{parse_entangle_command, EntangleCommand};
use daft::commands::history::{branch_action, diff_line, hunk_json, oneline, BranchAction, HunkLine};
use daft::commands::remote::{
    missing_remote_for_fetch, parse_remote_command, pull_up_to_date, push_branch, remote_name_of, remote_root,
    RemoteCommand,
};
use daft::commands::timeline::{timeline_view, ExportFormat, TimelineView};
use daft::foresee::EditOpKind;

fn words(ws: &[&str]) -> Vec<String> {
    ws.iter().map(|w| w.to_string()).collect()
}

fn checks(toks: &[&str], strategies: &[&str]) -> StrategyChecks {
    StrategyChecks {
        whole: toks.iter().map(|t| strategies.contains(t)).collect(),
        after_eq: toks
            .iter()
            .map(|t| t.strip_prefix("--strategy=").map(|s| strategies.contains(&s)).unwrap_or(false))
            .collect(),
    }
}

#[test]
fn agent_subcommands() {
    let a = AgentArgs { args: words(&["register", "--type", "human", "alice"]), agent_type: None };
    match parse_agent_command(&a, false) {
        Ok(AgentCommand::Register { name, agent_type }) => {
            assert_eq!(name, "alice");
            assert_eq!(agent_type, AgentType::Human);
        }
        other => panic!("unexpected {:?}", other),
    }
    let b = AgentArgs { args: words(&["register", "bob", "-t=AI", "--type", "human"]), agent_type: None };
    match parse_agent_command(&b, false) {
        Ok(AgentCommand::Register { name, agent_type }) => {
            assert_eq!(name, "bob");
            assert_eq!(agent_type, AgentType::Ai);
        }
        other => panic!("unexpected {:?}", other),
    }
    let c = AgentArgs { args: words(&["register", "--json"]), agent_type: None };
    assert_eq!(parse_agent_command(&c, false).unwrap_err(), "Missing agent name");
    let d = AgentArgs { args: words(&["register", "x"]), agent_type: Some("robot".to_string()) };
    assert_eq!(
        parse_agent_command(&d, false).unwrap_err(),
        "Unknown agent type: 'robot'. Valid options: human, ai"
    );
    let e = AgentArgs { args: vec![], agent_type: None };
    assert!(matches!(parse_agent_command(&e, false), Ok(AgentCommand::List)));
    let f = AgentArgs { args: words(&["assign", "bot"]), agent_type: None };
    assert_eq!(parse_agent_command(&f, false).unwrap_err(), "Usage: dft agent assign <agent> <dim>");
    let g = AgentArgs { args: words(&["broadcast", "hello", "all"]), agent_type: None };
    match parse_agent_command(&g, false) {
        Ok(AgentCommand::Broadcast { message }) => assert_eq!(message, "hello all"),
        other => panic!("unexpected {:?}", other),
    }
    let h = AgentArgs { args: words(&["broadcast"]), agent_type: None };
    match parse_agent_command(&h, false) {
        Ok(AgentCommand::Broadcast { message }) => assert_eq!(message, "system broadcast"),
        other => panic!("unexpected {:?}", other),
    }
    let i = AgentArgs { args: words(&["inbox", "--json"]), agent_type: None };
    match parse_agent_command(&i, false) {
        Ok(AgentCommand::Inbox { agent, json }) => {
            assert_eq!(agent, None);
            assert!(json);
        }
        other => panic!("unexpected {:?}", other),
    }
    let j = AgentArgs { args: words(&["dance"]), agent_type: None };
    assert_eq!(parse_agent_command(&j, false).unwrap_err(), "Unknown agent subcommand: dance");
}

#[test]
fn entangle_subcommands() {
    let a = EntangleArgs { args: words(&["dim-a", "dim-b", "--paths", "src/**"]), paths: None };
    match parse_entangle_command(&a) {
        Ok(EntangleCommand::Link { dim1, dim2, paths }) => {
            assert_eq!((dim1.as_str(), dim2.as_str()), ("dim-a", "dim-b"));
            assert_eq!(paths, Some("src/**".to_string()));
        }
        other => panic!("unexpected {:?}", other),
    }
    let b = EntangleArgs { args: words(&["link", "a"]), paths: None };
    assert_eq!(
        parse_entangle_command(&b).unwrap_err(),
        "Usage: dft entangle link <dim1> <dim2> [--paths <glob>]"
    );
    let c = EntangleArgs { args: words(&["break", "a", "b"]), paths: None };
    assert!(matches!(parse_entangle_command(&c), Ok(EntangleCommand::Sever { .. })));
    let d = EntangleArgs { args: words(&["list", "--json"]), paths: None };
    assert!(matches!(parse_entangle_command(&d), Ok(EntangleCommand::List { json: true })));
    let e = EntangleArgs { args: words(&["--bogus"]), paths: None };
    assert_eq!(parse_entangle_command(&e).unwrap_err(), "Unknown entangle option: '--bogus'");
    let f = EntangleArgs { args: words(&["--json"]), paths: None };
    assert_eq!(
        parse_entangle_command(&f).unwrap_err(),
        "Usage: dft entangle [link] <dim1> <dim2> | sever <dim1> <dim2> | list | log | sync"
    );
    let g = EntangleArgs { args: words(&["link", "a", "b", "--paths=docs/**"]), paths: Some("x".to_string()) };
    match parse_entangle_command(&g) {
        Ok(EntangleCommand::Link { paths, .. }) => assert_eq!(paths, Some("docs/**".to_string())),
        other => panic!("unexpected {:?}", other),
    }
}

#[test]
fn cronos_intervals() {
    assert!(matches!(read_interval("45"), IntervalValue::Secs(45)));
    assert!(matches!(read_interval("45s"), IntervalValue::Secs(45)));
    assert!(matches!(read_interval("5m"), IntervalValue::Secs(300)));
    assert!(matches!(read_interval("abc"), IntervalValue::NotANumber));
    assert!(matches!(read_interval("18446744073709551615m"), IntervalValue::Overflow));
}

#[test]
fn cronos_subcommands() {
    let toks = ["start", "--interval", "2m", "--strategy", "bogus", "--strategy=rebase"];
    let args = CronosArgs { args: words(&toks) };
    match parse_cronos_command(&args, &checks(&toks, &["merge", "rebase"])) {
        Ok(CronosCommand::Start { launch }) => assert_eq!(launch, Some((120, Some("rebase".to_string())))),
        other => panic!("unexpected {:?}", other),
    }
    let toks = ["_worker", "--interval=9", "--strategy", "merge"];
    let args = CronosArgs { args: words(&toks) };
    match parse_cronos_command(&args, &checks(&toks, &["merge"])) {
        Ok(CronosCommand::Worker { launch }) => assert_eq!(launch, Some((30, Some("merge".to_string())))),
        other => panic!("unexpected {:?}", other),
    }
    let args = CronosArgs { args: vec![] };
    assert!(matches!(parse_cronos_command(&args, &checks(&[], &[])), Ok(CronosCommand::Status)));
    let args = CronosArgs { args: words(&["pause"]) };
    match parse_cronos_command(&args, &checks(&["pause"], &[])) {
        Ok(CronosCommand::Pause { dimension }) => assert_eq!(dimension, "unknown"),
        other => panic!("unexpected {:?}", other),
    }
    let args = CronosArgs { args: words(&["fly"]) };
    assert_eq!(parse_cronos_command(&args, &checks(&["fly"], &[])).unwrap_err(), "Unknown cronos subcommand: fly");
    let toks = ["config", "--interval", "soon"];
    let args = CronosArgs { args: words(&toks) };
    match parse_cronos_command(&args, &checks(&toks, &[])) {
        Ok(CronosCommand::Config { request: Err(ConfigError::General(m)), .. }) => {
            assert_eq!(m, "Invalid interval duration: 'soon'")
        }
        other => panic!("unexpected {:?}", other),
    }
    let toks = ["config", "--strategy", "bogus"];
    let args = CronosArgs { args: words(&toks) };
    match parse_cronos_command(&args, &checks(&toks, &["merge"])) {
        Ok(CronosCommand::Config { request: Err(ConfigError::BadStrategy(s)), .. }) => assert_eq!(s, "bogus"),
        other => panic!("unexpected {:?}", other),
    }
    let toks = ["config", "--frobnicate"];
    let args = CronosArgs { args: words(&toks) };
    match parse_cronos_command(&args, &checks(&toks, &[])) {
        Ok(CronosCommand::Config { request: Err(ConfigError::General(m)), .. }) => {
            assert_eq!(m, "Unknown config option: '--frobnicate'")
        }
        other => panic!("unexpected {:?}", other),
    }
}

#[test]
fn cronos_configuration_updates() {
    let settings = CronosSettings {
        interval_secs: 30,
        default_strategy: "merge".to_string(),
        auto_entangle: false,
        watched_dimensions: vec![],
    };
    let toks = ["config", "watch", "feature", "release", "--interval", "1m", "--paths", "src/**", "--auto-entangle"];
    let args = CronosArgs { args: words(&toks) };
    let req = match parse_cronos_command(&args, &checks(&toks, &[])) {
        Ok(CronosCommand::Config { request: Ok(r), json }) => {
            assert!(!json);
            r
        }
        other => panic!("unexpected {:?}", other),
    };
    assert!(request_changes(&req));
    let after = apply_config(&settings, &req);
    assert_eq!(after.interval_secs, 30);
    assert!(after.auto_entangle);
    assert_eq!(after.watched_dimensions.len(), 1);
    let w = &after.watched_dimensions[0];
    assert_eq!((w.dimension.as_str(), w.target.as_str()), ("feature", "release"));
    assert_eq!(w.interval_secs, Some(60));
    assert_eq!(w.paths, vec!["src/**".to_string()]);
    assert!(!w.paused);

    let toks = ["config", "--strategy=rebase", "--interval", "90"];
    let args = CronosArgs { args: words(&toks) };
    let req = match parse_cronos_command(&args, &checks(&toks, &["rebase"])) {
        Ok(CronosCommand::Config { request: Ok(r), .. }) => r,
        other => panic!("unexpected {:?}", other),
    };
    let after2 = apply_config(&after, &req);
    assert_eq!(after2.interval_secs, 90);
    assert_eq!(after2.default_strategy, "rebase");
    assert_eq!(after2.watched_dimensions.len(), 1);

    let toks = ["config", "unwatch", "feature"];
    let args = CronosArgs { args: words(&toks) };
    let req = match parse_cronos_command(&args, &checks(&toks, &[])) {
        Ok(CronosCommand::Config { request: Ok(r), .. }) => r,
        other => panic!("unexpected {:?}", other),
    };
    assert_eq!(apply_config(&after2, &req).watched_dimensions.len(), 0);

    let toks = ["config", "list"];
    let args = CronosArgs { args: words(&toks) };
    match parse_cronos_command(&args, &checks(&toks, &[])) {
        Ok(CronosCommand::Config { request: Ok(r), .. }) => {
            assert!(r.list);
            assert!(!request_changes(&r));
        }
        other => panic!("unexpected {:?}", other),
    }
}

#[test]
fn cronos_worker_clock() {
    assert_eq!(worker_step(100, 30, Some(7), 8), WorkerAction::Stop);
    assert_eq!(worker_step(100, 30, None, 8), WorkerAction::Stop);
    assert_eq!(worker_step(29_900, 30, Some(8), 8), WorkerAction::Wait);
    assert_eq!(worker_step(30_000, 30, Some(8), 8), WorkerAction::Tick);
    assert_eq!(worker_step(1_000, 0, Some(8), 8), WorkerAction::Tick);
}

#[test]
fn timeline_views() {
    let t = |dimension: Option<&str>, ancestry: bool, args: &[&str], format: Option<&str>| TimelineArgs {
        dimension: dimension.map(|s| s.to_string()),
        ancestry,
        args: words(args),
        format: format.map(|s| s.to_string()),
    };
    assert!(matches!(timeline_view(&t(Some("export"), false, &[], None)), TimelineView::Export(ExportFormat::Json)));
    assert!(matches!(
        timeline_view(&t(None, false, &["export", "-f", "dot"], None)),
        TimelineView::Export(ExportFormat::Dot)
    ));
    assert!(matches!(
        timeline_view(&t(None, false, &["export", "--format=svg"], None)),
        TimelineView::Export(ExportFormat::Svg)
    ));
    assert!(matches!(timeline_view(&t(None, false, &["--ancestry"], None)), TimelineView::Ancestry));
    match timeline_view(&t(Some("feature"), false, &[], None)) {
        TimelineView::Single(d) => assert_eq!(d, "feature"),
        other => panic!("unexpected {:?}", other),
    }
    assert!(matches!(timeline_view(&t(Some("-x"), false, &[], None)), TimelineView::Multiverse));
}

#[test]
fn observe_and_awareness_arguments() {
    let o = |ws: &[&str]| ObserveArgs { args: words(ws) };
    assert_eq!(
        parse_observe_command(&o(&[])).unwrap_err(),
        "Usage: dft observe <dim> <path> | diff <d1> <d2> | log <d> | status <d>"
    );
    assert!(matches!(parse_observe_command(&o(&["diff", "a", "b", "x.rs"])), Ok(ObserveCommand::Diff { path: Some(_), .. })));
    assert_eq!(parse_observe_command(&o(&["log"])).unwrap_err(), "Usage: dft observe log <dim>");
    assert!(matches!(parse_observe_command(&o(&["status", "d"])), Ok(ObserveCommand::Status { .. })));
    assert_eq!(parse_observe_command(&o(&["dim-a"])).unwrap_err(), "Usage: dft observe <dim> <file>");
    match parse_observe_command(&o(&["dim-a", "hello.txt"])) {
        Ok(ObserveCommand::Cat { dimension, file }) => {
            assert_eq!((dimension.as_str(), file.as_str()), ("dim-a", "hello.txt"))
        }
        other => panic!("unexpected {:?}", other),
    }
    let f = ForeseeArgs { dim1: None, dim2: None };
    assert_eq!(foresee_pair(&f, "feat-1"), ("feat-1".to_string(), "mainline".to_string()));
    let t = TerritoryArgs { args: words(&["audit", "--fix"]) };
    assert_eq!(territory_request(&t), TerritoryRequest::Audit { fix: true });
    assert_eq!(territory_request(&TerritoryArgs { args: vec![] }), TerritoryRequest::Overview);
}

#[test]
fn authors_and_history() {
    assert_eq!(
        parse_author_str("Jane Doe <jane@example.com>"),
        Some(("Jane Doe".to_string(), "jane@example.com".to_string()))
    );
    assert_eq!(parse_author_str("  Jo  <  j@x  > trailing"), Some(("Jo".to_string(), "j@x".to_string())));
    assert_eq!(parse_author_str("no email"), None);
    assert_eq!(parse_author_str("> backwards <"), None);
    assert_eq!(oneline("abcdef0123", "Title\nbody"), "abcdef0 Title");
    assert_eq!(diff_line(EditOpKind::Insert, "x"), "+x");
    assert_eq!(diff_line(EditOpKind::Delete, "y"), "-y");
    let h = hunk_json(1, 2, 3, 4, &vec![HunkLine { kind: EditOpKind::Equal, content: "z".to_string() }]);
    assert_eq!(h.lines, vec![" z".to_string()]);
    let b = BranchArgs { name: None, delete: None, force_delete: None, rename: Some(words(&["old"])), all: false };
    assert_eq!(branch_action(&b).unwrap_err(), "Branch rename requires OLD and NEW branch names");
    let c = BranchArgs { name: Some("n".to_string()), delete: None, force_delete: Some("f".to_string()), rename: None, all: false };
    match branch_action(&c) {
        Ok(BranchAction::Delete { name, force }) => {
            assert_eq!(name, "f");
            assert!(force);
        }
        other => panic!("unexpected {:?}", other),
    }
}

#[test]
fn remotes_and_dimensions() {
    let r = RemoteArgs { args: words(&["add", "origin", "file:///srv/repo"]), verbose: false };
    match parse_remote_command(&r) {
        Ok(RemoteCommand::Add { name, url }) => assert_eq!((name.as_str(), url.as_str()), ("origin", "file:///srv/repo")),
        other => panic!("unexpected {:?}", other),
    }
    let r = RemoteArgs { args: words(&["remove"]), verbose: false };
    assert_eq!(parse_remote_command(&r).unwrap_err(), "Usage: dft remote remove <name>");
    assert!(matches!(parse_remote_command(&RemoteArgs { args: vec![], verbose: true }), Ok(RemoteCommand::List { verbose: true })));
    assert_eq!(remote_root("file://file:///srv/repo"), "/srv/repo");
    assert_eq!(remote_name_of(&vec![]), "origin");
    assert_eq!(
        missing_remote_for_fetch("up"),
        "Fatal: remote 'up' does not exist. Use 'dft remote add up <url>'"
    );
    assert_eq!(push_branch(None, Some("refs/heads/dev")), "dev");
    assert_eq!(push_branch(None, None), "main");
    assert_eq!(push_branch(Some("x"), Some("refs/heads/dev")), "x");
    assert!(pull_up_to_date("abc", "abc"));
    assert_eq!(current_dimension_from(Some("  feature \n")), "feature");
    assert_eq!(current_dimension_from(Some("   ")), "mainline");
    assert_eq!(current_dimension_from(None), "mainline");
    assert_eq!(current_dimension_text("dev"), "dev\n");
}
