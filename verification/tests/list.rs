use centinel_core::counts::Counts;
use centinel_core::domain::Liveness;
use centinel_core::ops::list::{
    default_max_problems, liveness_mark, named, sort_problems, ListArgs, ListReport, Problem, SourceSummary,
};
use centinel_core::page::{Mark, Page};

fn render_to_string(report: &ListReport) -> String {
    let mut p = Page::new();
    report.render(&mut p);
    p.to_text()
}

fn summary(id: &str, resources: usize) -> SourceSummary {
    SourceSummary {
        source: id.into(),
        configured: true,
        resources,
        observations: resources,
        liveness: match resources {
            0 => Counts::new(),
            n => Counts::from_pairs(&[("live", n as u64)]),
        },
        problems: Vec::new(),
        problems_truncated: None,
    }
}

fn report(sources: Vec<SourceSummary>) -> ListReport {
    ListReport {
        store_root: "/tmp/store".into(),
        sources,
    }
}

/// `0 resources · 0 observations` is two facts a reader has to add up. The row has to
/// say the state, and then say what turns it into a corpus.
#[test]
fn an_uncollected_source_says_so_and_names_the_command_that_collects_it() {
    let out = render_to_string(&report(vec![summary("tampa", 0)]));
    assert!(out.contains("tampa"), "{out}");
    assert!(out.contains("nothing collected yet"), "{out}");
    assert!(out.contains("centinel run --source tampa"), "{out}");
}

/// One command, once, at the bottom.
#[test]
fn several_uncollected_sources_get_one_line_between_them() {
    let out = render_to_string(&report(vec![summary("tampa", 0), summary("pinellas", 0)]));
    assert!(out.contains("2 sources hold nothing yet"), "{out}");
    assert!(!out.contains("--source tampa"), "{out}");
    assert_eq!(out.matches("centinel run").count(), 1, "{out}");
}

/// A collected corpus must not carry a standing instruction to go and collect it.
#[test]
fn a_collected_corpus_gets_no_footer() {
    let out = render_to_string(&report(vec![summary("tampa", 1847)]));
    assert!(out.contains("1,847 resources"), "{out}");
    assert!(!out.contains("centinel run"), "{out}");
}

/// The gap the other way round, which the aside is the only thing that reports here.
#[test]
fn an_empty_source_the_config_never_named_says_that_too() {
    let loose = SourceSummary {
        configured: false,
        ..summary("hillsborough", 0)
    };
    let out = render_to_string(&report(vec![loose]));
    assert!(out.contains("not in centinel.toml"), "{out}");
}

#[test]
fn an_empty_store_says_how_to_add_a_source() {
    let out = render_to_string(&report(vec![]));
    assert_eq!(
        out,
        "No sources yet.\n→ centinel source add <name> --site <url>\n"
    );
}

#[test]
fn live_leads_the_roll_up_and_problems_follow_with_their_history() {
    let mut s = summary("tampa", 3);
    s.liveness = Counts::from_pairs(&[("blocked", 1), ("live", 1), ("gone", 1)]);
    s.problems = vec![Problem {
        natural_key: "https://tampa.gov/a".into(),
        state: Liveness::Blocked,
        since: "2024-05-01".into(),
        consecutive_failures: 3,
        detail: Some("403\nforbidden".into()),
    }];
    s.problems_truncated = Some(1200);
    let out = render_to_string(&report(vec![s]));
    assert_eq!(
        out,
        "tampa  3 resources · 3 observations\n  \
         ✓ 1 live   ! 1 blocked   ✗ 1 gone\n\
         \n  \
         ! blocked https://tampa.gov/a\n    \
         3 failures since 2024-05-01 · 403 forbidden\n  \
         … and 1,200 more, raise --max-problems to see them\n"
    );
}

#[test]
fn the_config_leads_and_the_store_follows_each_name_once() {
    let configured = vec!["tampa".to_string(), "pinellas".to_string(), "tampa".to_string()];
    let stored = vec!["hillsborough".to_string(), "tampa".to_string()];
    assert_eq!(named(&configured, &stored), ["tampa", "pinellas", "hillsborough"]);
}

#[test]
fn a_liveness_name_reads_as_its_glyph() {
    assert_eq!(liveness_mark("live"), Mark::Good);
    assert_eq!(liveness_mark("blocked"), Mark::Warn);
    assert_eq!(liveness_mark("gone"), Mark::Bad);
}

#[test]
fn the_problem_cap_is_twenty_unless_asked() {
    assert_eq!(default_max_problems(), 20);
    let args = ListArgs::default();
    assert!(args.source.is_none());
}

fn status(key: &str, state: Liveness, failures: u32) -> Problem {
    Problem {
        natural_key: key.into(),
        state,
        since: "2026-08-04T10:00:00Z".into(),
        consecutive_failures: failures,
        detail: None,
    }
}

/// Longest-standing failures first, then by address; the live ones only counted.
#[test]
fn a_summary_tallies_every_state_and_lists_the_worst_first() {
    let statuses = vec![
        status("https://t/a", Liveness::Live, 0),
        status("https://t/d", Liveness::Blocked, 2),
        status("https://t/c", Liveness::Gone, 9),
        status("https://t/b", Liveness::Error, 2),
        status("https://t/e", Liveness::Live, 0),
    ];
    let s = SourceSummary::summarize("tampa".into(), true, 5, 3, statuses, 20);
    assert_eq!(s.liveness.get("live"), Some(2));
    assert_eq!(s.liveness.get("blocked"), Some(1));
    assert_eq!(s.liveness.get("gone"), Some(1));
    assert_eq!(s.liveness.get("error"), Some(1));
    let keys: Vec<&str> = s.problems.iter().map(|p| p.natural_key.as_str()).collect();
    assert_eq!(keys, vec!["https://t/c", "https://t/b", "https://t/d"]);
    assert_eq!(s.problems_truncated, None);
}

#[test]
fn problems_past_the_cap_are_counted_not_dropped_silently() {
    let statuses: Vec<Problem> = (0..5).map(|i| status(&format!("https://t/{i}"), Liveness::Gone, i)).collect();
    let s = SourceSummary::summarize("tampa".into(), false, 5, 5, statuses, 2);
    assert_eq!(s.problems.len(), 2);
    assert_eq!(s.problems[0].natural_key, "https://t/4");
    assert_eq!(s.problems[1].natural_key, "https://t/3");
    assert_eq!(s.problems_truncated, Some(3));
    assert_eq!(s.liveness.get("live"), None);
}

#[test]
fn sorting_problems_keeps_every_one() {
    let v = vec![status("b", Liveness::Gone, 1), status("a", Liveness::Gone, 1), status("z", Liveness::Error, 3)];
    let out = sort_problems(v);
    let keys: Vec<&str> = out.iter().map(|p| p.natural_key.as_str()).collect();
    assert_eq!(keys, vec!["z", "a", "b"]);
}
