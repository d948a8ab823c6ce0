use daft::agent::heartbeat::AgentLiveness;

#[test]
fn test_heartbeat_boundary_transitions() {
    let now = 1_000_000u64;

    // Active boundaries: [0, 60)
    assert_eq!(
        AgentLiveness::evaluate(Some(now), now),
        AgentLiveness::Active,
        "delta 0 should be Active"
    );
    assert_eq!(
        AgentLiveness::evaluate(Some(now - 1), now),
        AgentLiveness::Active,
        "delta 1 should be Active"
    );
    assert_eq!(
        AgentLiveness::evaluate(Some(now - 59), now),
        AgentLiveness::Active,
        "delta 59 should be Active"
    );

    // Idle boundaries: [60, 300]
    assert_eq!(
        AgentLiveness::evaluate(Some(now - 60), now),
        AgentLiveness::Idle,
        "delta 60 should transition to Idle"
    );
    assert_eq!(
        AgentLiveness::evaluate(Some(now - 150), now),
        AgentLiveness::Idle,
        "delta 150 should be Idle"
    );
    assert_eq!(
        AgentLiveness::evaluate(Some(now - 300), now),
        AgentLiveness::Idle,
        "delta 300 should be Idle"
    );

    // Offline boundaries: > 300
    assert_eq!(
        AgentLiveness::evaluate(Some(now - 301), now),
        AgentLiveness::Offline,
        "delta 301 should transition to Offline"
    );
    assert_eq!(
        AgentLiveness::evaluate(Some(now - 86400), now),
        AgentLiveness::Offline,
        "delta 86400 should be Offline"
    );

    // Missing heartbeat
    assert_eq!(
        AgentLiveness::evaluate(None, now),
        AgentLiveness::Offline,
        "None should be Offline"
    );

    // Future timestamp / clock skew: now < ts
    assert_eq!(
        AgentLiveness::evaluate(Some(now + 100), now),
        AgentLiveness::Offline,
        "Future timestamp should be Offline"
    );
}
