use daft::clock::UtcTime;
use daft::commands::add::{first_fence_violation, fenced_among, is_path_fenced, is_staging_candidate};
use daft::territory::claim::Claim;
use daft::territory::error::AwarenessError;
use daft::territory::fence::Fence;
use daft::territory::lock::{contention_message, gives_up, TerritoryLockInfo};
use daft::territory::TerritoryManager;

const DIGEST: &str = "0123456789abcdef0123";

fn at(secs: i64) -> UtcTime {
    UtcTime { secs, nanos: 0 }
}

fn claim(path: &str, dim: &str, agent: Option<&str>, ttl: Option<u64>, exclusive: bool, t: i64) -> Claim {
    Claim::new(
        path.to_string(),
        dim.to_string(),
        agent.map(|a| a.to_string()),
        ttl,
        exclusive,
        at(t),
        DIGEST,
    )
}

fn fence(path: &str, owner: Option<&str>, hard: bool, ttl: Option<u64>, t: i64) -> Fence {
    Fence::new(
        path.to_string(),
        owner.map(|o| o.to_string()),
        Some("agent-sec".to_string()),
        hard,
        ttl,
        Some("Security fence".to_string()),
        at(t),
        DIGEST,
    )
}

#[test]
fn claim_ids_take_the_digest_prefix() {
    let c = claim("src/**/*.rs", "dim-alpha", Some("agent-1"), Some(60), true, 1000);
    assert_eq!(c.id, "claim_0123456789abcdef");
    assert_eq!(c.expires_at, Some(at(1060)));
    assert!(c.is_active(at(1059)));
    assert!(!c.is_active(at(1060)));
    let forever = claim("a", "d", None, None, false, 0);
    assert!(forever.is_active(at(i64::MAX / 2)));
}

#[test]
fn exclusive_claims_conflict_on_overlap() {
    let tm = TerritoryManager::new(".dft");
    let first = claim("src/**/*.rs", "dim-alpha", Some("agent-1"), Some(3600), true, 0);
    let existing = vec![first];
    let other = claim("src/main.rs", "dim-beta", Some("agent-2"), Some(3600), true, 10);
    match tm.claim(&existing, other, at(10)) {
        Err(AwarenessError::TerritoryConflict(m)) => assert_eq!(
            m,
            "Path 'src/main.rs' conflicts with active claim 'claim_0123456789abcdef' held by dimension 'dim-alpha' (agent: Some(\"agent-1\"))"
        ),
        other => panic!("expected a conflict, got {:?}", other),
    }
    let disjoint = claim("docs/**", "dim-beta", Some("agent-2"), None, true, 10);
    assert!(tm.claim(&existing, disjoint, at(10)).is_ok());
    let renewal = claim("src/**/*.rs", "dim-alpha", Some("agent-1"), Some(3600), true, 20);
    assert!(tm.claim(&existing, renewal, at(20)).is_ok());
    let after_expiry = claim("src/main.rs", "dim-beta", Some("agent-2"), None, true, 5000);
    assert!(tm.claim(&existing, after_expiry, at(5000)).is_ok());
}

#[test]
fn yielding_releases_matching_claims() {
    let tm = TerritoryManager::new(".dft");
    let claims = vec![
        claim("src/**/*.rs", "dim-alpha", Some("agent-1"), None, true, 0),
        claim("docs/**", "dim-alpha", Some("agent-1"), None, true, 0),
    ];
    let released = tm.yield_path(&claims, "src/**/*.rs", Some("agent-1"), Some("dim-alpha"));
    assert_eq!(released.len(), 1);
    assert_eq!(released[0].path_glob, "src/**/*.rs");
    let none = tm.yield_path(&claims, "src/**/*.rs", Some("agent-2"), None);
    assert_eq!(none.len(), 0);
    let by_agent = tm.yield_agent(&claims, "agent-1", None);
    assert_eq!(by_agent.len(), 2);
}

#[test]
fn fences_bar_everyone_but_their_owner() {
    let tm = TerritoryManager::new(".dft");
    let f = fence("crates/security/**", Some("dim-sec"), true, Some(3600), 0);
    assert_eq!(f.id, "fence_0123456789abcdef");
    assert!(!f.is_violated_by("crates/security/crypto.rs", "dim-sec"));
    assert!(f.is_violated_by("crates/security/crypto.rs", "dim-rogue"));
    let fences = vec![f];
    let staged = vec!["crates/security/crypto.rs".to_string()];
    assert!(tm.check_stage_allowed(&fences, at(10), "dim-sec", &staged).is_ok());
    assert!(tm.check_commit_allowed(&fences, at(10), "dim-sec", &staged).is_ok());
    assert_eq!(
        tm.check_stage_allowed(&fences, at(10), "dim-rogue", &staged),
        Err(AwarenessError::General(
            "Operation blocked by territory fence: FENCE on 'crates/security/crypto.rs'".to_string()
        ))
    );
    assert!(tm.check_commit_allowed(&fences, at(10), "dim-rogue", &staged).is_err());
    // After the fence expires nothing is barred.
    assert!(tm.check_stage_allowed(&fences, at(3600), "dim-rogue", &staged).is_ok());
    let removed = tm.unfence(&fences, "crates/security/**");
    assert!(removed.is_some());
    assert!(tm.unfence(&fences, "other/**").is_none());
}

#[test]
fn staged_paths_are_checked_in_their_staged_form() {
    let hard = fence("src/api/**", Some("owner_dim"), true, None, 0);
    let soft = fence("docs/**", None, false, None, 0);
    let fences = vec![hard, soft];
    assert!(fenced_among(&fences, "./src/api/auth.rs", Some("rogue_dim")));
    assert!(!fenced_among(&fences, "src/api/auth.rs", Some("owner_dim")));
    assert!(fenced_among(&fences, "src\\api\\auth.rs", None));
    assert!(!fenced_among(&fences, "docs/readme.md", Some("rogue_dim")));
    assert!(!fenced_among(&fences, "src/unfenced.txt", Some("rogue_dim")));
    let cands = vec!["src/unfenced.txt".to_string(), "./src/api/auth.rs".to_string()];
    assert_eq!(
        first_fence_violation(&fences, &cands, "rogue_dim"),
        Some("src/api/auth.rs".to_string())
    );
    assert_eq!(first_fence_violation(&fences, &cands, "owner_dim"), None);
    // Fences without an expiry are in force whatever the clock says.
    assert!(is_path_fenced(".dft", &fences, "src/api/auth.rs", Some("rogue_dim")));
    assert!(!is_path_fenced(".dft", &fences, "src/api/auth.rs", Some("owner_dim")));
}

#[test]
fn staging_candidates_when_everything_is_staged() {
    let entry = Some((14u32, "oid-a".to_string()));
    assert!(is_staging_candidate(&None, Some(3), &None));
    assert!(is_staging_candidate(&entry, None, &None));
    assert!(is_staging_candidate(&entry, Some(15), &None));
    assert!(!is_staging_candidate(&entry, Some(14), &Some("oid-a".to_string())));
    assert!(is_staging_candidate(&entry, Some(14), &Some("oid-b".to_string())));
    assert!(is_staging_candidate(&entry, Some(14), &None));
    // The size is compared as the index keeps it, cut to 32 bits.
    assert!(!is_staging_candidate(&entry, Some((1u64 << 32) + 14), &Some("oid-a".to_string())));
}

#[test]
fn lock_contention_messages() {
    let info = TerritoryLockInfo {
        pid: 42,
        agent_id: Some("agent-7".to_string()),
        operation: "claim".to_string(),
        acquired_at: "2024-01-01T00:00:00+00:00".to_string(),
    };
    assert_eq!(
        contention_message(&Some(info), 5),
        "Territory lock contention held by PID Some(42) (agent: Some(\"agent-7\"), op: Some(\"claim\")): timed out after 5s"
    );
    assert_eq!(
        contention_message(&None, 0),
        "Territory lock contention held by PID None (agent: None, op: None): timed out after 0s"
    );
    assert!(gives_up(5000, 5000));
    assert!(!gives_up(4999, 5000));
}

#[test]
fn claims_load_in_order_of_creation() {
    let mk = |id: &str, secs: i64, nanos: u32| Claim {
        id: id.to_string(),
        path_glob: "p".to_string(),
        agent_id: None,
        dimension: "d".to_string(),
        exclusive: false,
        created_at: UtcTime { secs, nanos },
        ttl_seconds: None,
        expires_at: None,
        description: None,
    };
    let store = daft::territory::store::TerritoryStore::new(".dft/territory");
    let read = vec![mk("c", 30, 0), mk("a", 10, 5), mk("b1", 20, 0), mk("a0", 10, 1), mk("b2", 20, 0)];
    let ids: Vec<String> = store.order_claims(&read).into_iter().map(|c| c.id).collect();
    assert_eq!(ids, vec!["a0", "a", "b1", "b2", "c"]);
}

#[test]
fn awareness_errors_read_as_messages() {
    assert_eq!(
        AwarenessError::FileNotFoundInDimension { path: "a.txt".into(), dimension: "d".into() }.message(),
        "File 'a.txt' not found in dimension 'd'"
    );
    assert_eq!(AwarenessError::TerritoryConflict("c".into()).message(), "Territory conflict: c");
}
