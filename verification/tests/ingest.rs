use centinel_core::domain::Liveness;
use centinel_core::ops::ingest::{
    classify, default_timeout, default_ua, IngestOutcome, IngestReport, DEFAULT_USER_AGENT,
};

#[test]
fn waf_403_is_blocked_not_gone() {
    // The distinction the whole discovery-delta story rests on.
    assert_eq!(classify(403), Liveness::Blocked);
    assert_eq!(classify(429), Liveness::Blocked);
    assert_eq!(classify(404), Liveness::Gone);
    assert_eq!(classify(410), Liveness::Gone);
    assert_eq!(classify(500), Liveness::Error);
    assert_eq!(classify(503), Liveness::Error);
}

#[test]
fn default_user_agent_is_descriptive_and_contactable() {
    assert!(DEFAULT_USER_AGENT.contains("Centinel"));
    assert!(
        DEFAULT_USER_AGENT.contains('+'),
        "a contact URL is what flips sec.gov from 403 to 200"
    );
    assert_eq!(default_ua(), DEFAULT_USER_AGENT);
    assert_eq!(default_timeout(), 30);
}

#[test]
fn the_counters_follow_the_outcomes() {
    let mut r = IngestReport::new("tampa", 3);
    r.record_stored("https://tampa.gov/a", "aa", "f1", 10, None);
    r.record_stored("https://tampa.gov/b", "bb", "f2", 20, Some("f2"));
    r.record_failed("https://tampa.gov/c", Liveness::Blocked, "HTTP 403", 2);
    assert_eq!((r.attempted, r.stored, r.changed, r.failed), (3, 2, 1, 1));
    assert!(matches!(
        r.outcomes[0],
        IngestOutcome::Stored { changed: true, first_seen: true, .. }
    ));
    assert!(matches!(
        r.outcomes[1],
        IngestOutcome::Stored { changed: false, first_seen: false, .. }
    ));
    assert!(matches!(
        r.outcomes[2],
        IngestOutcome::Failed { state: Liveness::Blocked, consecutive_failures: 2, .. }
    ));
}
