use centinel_core::counts::Counts;
use centinel_core::domain::{Liveness, Note, NoteMark, SourceKind};
use centinel_core::ops::collect::{
    audio_policy, default_max_failures, default_max_mb, max_bytes, AudioPolicy, CollectFailure,
    CollectReport,
};
use centinel_core::page::Page;

fn render_to_string(report: &CollectReport) -> String {
    let mut p = Page::new();
    report.render(&mut p);
    p.to_text()
}

fn report() -> CollectReport {
    CollectReport {
        source: "tampa".into(),
        kind: SourceKind::Site,
        discovered: 100,
        already_had: 0,
        filtered_out: 0,
        attempted: 100,
        stored: 100,
        changed: 12,
        failed: 0,
        blocked: 0,
        bytes: 4096,
        remaining: 0,
        by_kind: Counts::from_pairs(&[("pdf", 40), ("html", 60)]),
        parts: Counts::from_pairs(&[("document", 100)]),
        notes: Vec::new(),
        failures: Vec::new(),
        failures_truncated: None,
    }
}

/// The only figure here that is an instruction.
#[test]
fn remaining_work_says_what_to_do_about_it() {
    let mut r = report();
    r.stored = 40;
    r.remaining = 60;
    assert!(render_to_string(&r).contains("re-run to continue"));
}

/// The bot wall and an empty channel produce identical counters, so the difference
/// has to be stated.
#[test]
fn a_wholesale_block_does_not_read_as_an_empty_source() {
    let mut r = report();
    r.kind = SourceKind::Channel;
    r.stored = 0;
    r.failed = 100;
    r.blocked = 100;
    let out = render_to_string(&r);
    assert!(out.contains("this is a block"), "{out}");
}

/// One row saying "document" is a row nobody needs; three rows are the shape of a
/// video and worth the space.
#[test]
fn the_artifact_table_appears_only_when_an_address_held_several() {
    assert!(!render_to_string(&report()).contains("by artifact"));

    let mut r = report();
    r.parts = Counts::from_pairs(&[("metadata", 42), ("captions.json3", 39), ("audio", 3)]);
    let out = render_to_string(&r);
    assert!(out.contains("by artifact"), "{out}");
    assert!(out.contains("captions.json3"), "{out}");
}

/// The source gets the last word, and the renderer prints it without understanding it.
#[test]
fn a_sources_own_remarks_are_shown() {
    let mut r = report();
    r.notes = vec![Note::marked(
        "no captions",
        "3 without captions — audio was fetched for transcription",
        NoteMark::Warn,
    )];
    let out = render_to_string(&r);
    assert!(out.contains("no captions"), "{out}");
    assert!(out.contains("transcription"), "{out}");
}

#[test]
fn failures_are_bounded_and_say_how_many_were_dropped() {
    let mut r = report();
    r.failures = vec![CollectFailure {
        natural_key: "https://x.gov/a".into(),
        state: Liveness::Blocked,
        detail: "HTTP 403".into(),
    }];
    r.failures_truncated = Some(412);
    let out = render_to_string(&r);
    assert!(out.contains("403"), "{out}");
    assert!(out.contains("412 more"), "{out}");
}

#[test]
fn the_collect_report_reads_in_order() {
    let mut r = report();
    r.blocked = 2;
    r.remaining = 1200;
    assert_eq!(
        render_to_string(&r),
        "tampa  4.00 KiB\n  \
         100 discovered · 0 already had · 0 filtered out · 100 attempted · 100 stored · 12 changed · 0 failed\n\
         \n  \
         by kind\n  \
         60 html\n  \
         40 pdf\n\
         \n  \
         ! 2 refused\n\
         \n  \
         ! 1,200 still uncollected — re-run to continue\n"
    );
}

/// No flag means "leave it to the config".
#[test]
fn audio_flags_resolve_to_a_policy_or_defer() {
    assert_eq!(audio_policy(false, false, false), None);
    assert_eq!(audio_policy(true, false, false), Some(AudioPolicy::Always));
    assert_eq!(audio_policy(false, true, false), Some(AudioPolicy::IfNoCaptions));
    assert_eq!(audio_policy(false, false, true), Some(AudioPolicy::Never));
}

#[test]
fn the_size_cap_is_in_mebibytes_and_never_wraps() {
    assert_eq!(default_max_mb(), 256);
    assert_eq!(max_bytes(default_max_mb()), 268_435_456);
    assert_eq!(max_bytes(u64::MAX), u64::MAX);
    assert_eq!(default_max_failures(), 20);
}
