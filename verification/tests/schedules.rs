use centinel_core::ops::schedule::{
    block_of, server_may_be_running, RmArgs, ScheduleReport, SetArgs,
};
use centinel_core::ops::schedules::{
    arithmetic_line, consecutive_failures, default_limit, filter_history, outcome_mark,
    schedule_problem, Added, Attempt, HistoryReport, Holder, Outcome, ScheduleStatus,
    SchedulesArgs, SchedulesReport, Subtracted, Trigger,
};
use centinel_core::page::{Mark, Page};

fn attempt(id: &str, schedule: Option<&str>, outcome: Outcome) -> Attempt {
    Attempt {
        run_id: id.into(),
        schedule: schedule.map(str::to_string),
        trigger: Trigger::Schedule,
        started_at: id.into(),
        finished_at: id.into(),
        outcome,
        detail: None,
        added: Added { documents: 0, derived: 0, chunks: 0 },
        subtracted: Subtracted { vanished: 0, gone: 0, blocked: 0, errored: 0 },
        report: None,
    }
}

fn set_args() -> SetArgs {
    SetArgs {
        id: Some("daily".into()),
        cron: Some("0 3 * * *".into()),
        tz: Some("America/New_York".into()),
        sources: vec!["tampa".into()],
        ..Default::default()
    }
}

fn render_status(s: &ScheduleStatus) -> String {
    let mut p = Page::new();
    s.render(&mut p);
    p.to_text()
}

/// A quiet run is the commonest outcome, and it needs saying.
#[test]
fn a_run_that_changed_nothing_says_so() {
    let line = arithmetic_line(
        &Added { documents: 0, derived: 0, chunks: 0 },
        &Subtracted { vanished: 0, gone: 0, blocked: 0, errored: 0 },
    );
    assert_eq!(line, "nothing changed");
}

/// Three terms, never a sum.
#[test]
fn the_subtractions_render_as_separate_terms() {
    let line = arithmetic_line(
        &Added { documents: 4, derived: 3, chunks: 12 },
        &Subtracted { vanished: 7, gone: 2, blocked: 40, errored: 1 },
    );
    assert!(line.contains("7 vanished"), "{line}");
    assert!(line.contains("2 gone"), "{line}");
    assert!(line.contains("40 blocked"), "{line}");
    assert!(line.contains("1 errored"), "{line}");
    assert!(!line.contains("49"), "the three were summed: {line}");
    assert!(!line.contains("50"), "the four were summed: {line}");
    assert_eq!(
        line,
        "+4 collected · +3 derived · +12 embedded · 7 vanished · 2 gone · 40 blocked · 1 errored"
    );
}

/// Skips and interruptions neither count towards a streak nor break one.
#[test]
fn the_failure_streak_ignores_skips_and_shutdowns() {
    // Newest first: a failure, a skip, a shutdown, then two failures.
    let outcomes = vec![
        Outcome::Failed,
        Outcome::Skipped,
        Outcome::Interrupted,
        Outcome::Failed,
        Outcome::Failed,
    ];
    assert_eq!(consecutive_failures(&outcomes), 3);
    assert_eq!(consecutive_failures(&vec![Outcome::Failed, Outcome::Clean, Outcome::Failed]), 1);
    assert_eq!(consecutive_failures(&vec![]), 0);
    assert_eq!(outcome_mark(Outcome::Interrupted), Mark::Warn);
}

#[test]
fn history_filters_and_bounds_itself_out_loud() {
    let journal = || {
        vec![
            attempt("2026-08-04T03:00:00Z", None, Outcome::Clean),
            attempt("2026-08-03T03:00:00Z", Some("weekly"), Outcome::Clean),
            attempt("2026-08-02T03:00:00Z", Some("daily"), Outcome::Failed),
            attempt("2026-08-01T03:00:00Z", Some("daily"), Outcome::Clean),
        ]
    };
    let all = filter_history(journal(), None, None, false, 20);
    assert_eq!(all.attempts.len(), 4);
    assert_eq!(all.attempts[0].run_id, "2026-08-04T03:00:00Z", "newest first");
    assert_eq!(all.truncated, None);

    let daily = filter_history(journal(), Some("daily"), None, false, 20);
    assert_eq!(daily.attempts.len(), 2);

    let failed = filter_history(journal(), None, None, true, 20);
    assert_eq!(failed.attempts.len(), 1);

    // A bounded list that does not say it is bounded reads as the whole history.
    let capped = filter_history(journal(), None, None, false, 2);
    assert_eq!(capped.attempts.len(), 2);
    assert_eq!(capped.truncated, Some(2));
    assert_eq!(default_limit(), 20);
}

/// What `history` prints, `history --run` takes back, by prefix.
#[test]
fn a_run_resolves_by_prefix() {
    let a = attempt("2026-08-06T03:00:11Z", None, Outcome::Clean);
    assert!(a.matches("2026-08-06T03:00"));
    assert!(a.matches("2026-08-06T03"));
    assert!(!a.matches("1999"));
}

/// Neither MCP nor a script can answer a prompt.
#[test]
fn a_missing_id_or_cadence_is_an_error_not_a_prompt() {
    let err = block_of(SetArgs { id: None, ..set_args() }).err().unwrap();
    assert!(err.contains("id"), "{err}");
    let err = block_of(SetArgs { cron: None, ..set_args() }).err().unwrap();
    assert!(err.contains("cadence"), "{err}");

    let block = block_of(SetArgs { disabled: true, ..set_args() }).ok().unwrap();
    assert_eq!(block.enabled, Some(false));
    assert_eq!(block.catch_up, None);
    assert_eq!(block.sources, ["tampa"]);
    assert!(server_may_be_running());
}

#[test]
fn a_written_schedule_previews_its_next_fires() {
    let r = ScheduleReport::Written {
        schedule: "daily".into(),
        cron: "0 3 * * *".into(),
        tz: "America/New_York".into(),
        config: "centinel.toml".into(),
        next: vec!["Mon 3 Aug 03:00 EDT".into(), "Tue 4 Aug 03:00 EDT".into()],
        needs_reload: true,
    };
    let mut p = Page::new();
    r.render(&mut p);
    assert_eq!(
        p.to_text(),
        "daily  0 3 * * * America/New_York\n  \
         next  Mon 3 Aug 03:00 EDT · Tue 4 Aug 03:00 EDT\n  \
         ✓ wrote centinel.toml\n\
         → a running server has not picked this up; send SIGHUP or restart\n"
    );
    let r = ScheduleReport::Rm { schedule: "daily".into(), config: "c.toml".into(), needs_reload: false };
    let mut p = Page::new();
    r.render(&mut p);
    assert!(p.to_text().contains("collected data and run history are untouched"));
    assert!(RmArgs::default().id.is_empty());
}

#[test]
fn a_broken_schedule_is_reported_rather_than_raised() {
    let known = vec!["tampa".to_string()];
    assert_eq!(
        schedule_problem(None, false, "@daily", None, &vec!["orlando".into()], &known).unwrap(),
        "source `orlando` has no [[source]] block"
    );
    assert_eq!(
        schedule_problem(None, true, "0 0 30 2 *", None, &vec![], &known).unwrap(),
        "`0 0 30 2 *` parses but never occurs"
    );
    assert!(schedule_problem(None, false, "@daily", None, &vec!["tampa".into()], &known).is_none());

    let s = ScheduleStatus {
        id: "broken".into(),
        cron: "0 0 30 2 *".into(),
        tz: "UTC".into(),
        enabled: true,
        sources: vec![],
        skip: vec![],
        refresh: false,
        next_fire: None,
        last_fire: None,
        last_outcome: None,
        consecutive_failures: 0,
        running: false,
        problem: Some("`0 0 30 2 *` parses but never occurs".into()),
    };
    let out = render_status(&s);
    assert!(out.contains("serve will refuse to start"), "{out}");
}

#[test]
fn a_schedule_reports_its_cadence_and_last_fire() {
    let s = ScheduleStatus {
        id: "daily".into(),
        cron: "0 3 * * *".into(),
        tz: "America/New_York".into(),
        enabled: true,
        sources: vec!["tampa".into(), "pinellas".into()],
        skip: vec!["embed".into()],
        refresh: true,
        next_fire: Some("2026-08-07T03:00:00-04:00".into()),
        last_fire: Some("2026-08-06T03:00:00-04:00".into()),
        last_outcome: Some(Outcome::Failed),
        consecutive_failures: 3,
        running: false,
        problem: None,
    };
    assert_eq!(
        render_status(&s),
        "daily  tampa, pinellas\n  \
         0 3 * * * America/New_York\n  \
         refresh: re-fetches and re-derives everything, every fire · skips embed\n  \
         next  2026-08-07T03:00:00-04:00\n  \
         last  2026-08-06T03:00:00-04:00 failed · 3 in a row\n"
    );

    let report = SchedulesReport {
        config: None,
        schedules: vec![],
        running: Some(Holder {
            pid: 7,
            started_at: "2026-08-06T03:00:00Z".into(),
            trigger: Trigger::Manual,
            schedule: None,
            args: String::new(),
        }),
    };
    let mut p = Page::new();
    report.render(&mut p);
    assert!(p.to_text().contains("No schedules configured."));
    assert!(!SchedulesArgs::default().check);
}

#[test]
fn one_attempt_gets_its_whole_story() {
    let mut a = attempt("2026-08-06T03:00:11Z", Some("daily"), Outcome::Partial);
    a.added.documents = 12;
    a.detail = Some("1 stage\nfailed".into());
    let r = HistoryReport { attempts: vec![a], truncated: None, ambiguous: None };
    let mut p = Page::new();
    r.render(&mut p);
    assert_eq!(
        p.to_text(),
        "! 2026-08-06T03:00:11Z partial     daily\n  \
         +12 collected · 1 stage failed · 2026-08-06T03:00:11Z\n"
    );
    let r = HistoryReport {
        attempts: vec![],
        truncated: None,
        ambiguous: Some(vec!["a".into(), "b".into()]),
    };
    let mut p = Page::new();
    r.render(&mut p);
    assert_eq!(p.to_text(), "That prefix matches several runs:\n  a\n  b\n");
}

use centinel_core::ops::schedules::{history_of, HistoryArgs};

fn history_args() -> HistoryArgs {
    HistoryArgs { run: None, schedule: None, source: None, failed: false, since: None, limit: 20 }
}

fn started(id: &str, at: &str) -> Attempt {
    let mut a = attempt(id, Some("daily"), Outcome::Clean);
    a.started_at = at.into();
    a
}

#[test]
fn a_run_prefix_matching_several_attempts_is_reported_as_ambiguous() {
    let attempts = vec![started("r-1a", "x"), started("r-1b", "x"), started("r-2", "x")];
    let args = HistoryArgs { run: Some("r-1".into()), ..history_args() };
    let r = history_of(attempts, &args).unwrap();
    assert!(r.attempts.is_empty());
    assert_eq!(r.ambiguous, Some(vec!["r-1a".to_string(), "r-1b".to_string()]));
    assert_eq!(r.truncated, None);
}

#[test]
fn a_run_prefix_matching_nothing_is_an_error_naming_it() {
    let attempts = vec![started("r-1a", "x")];
    let args = HistoryArgs { run: Some("zz".into()), ..history_args() };
    let err = history_of(attempts, &args).err().unwrap();
    assert_eq!(err, "no run matching `zz`");
}

#[test]
fn a_run_prefix_matching_one_attempt_returns_it_whatever_the_other_filters() {
    let attempts = vec![started("r-1a", "x"), started("r-2", "x")];
    let args = HistoryArgs { run: Some("r-2".into()), failed: true, limit: 0, ..history_args() };
    let r = history_of(attempts, &args).unwrap();
    assert_eq!(r.attempts.len(), 1);
    assert_eq!(r.attempts[0].run_id, "r-2");
    assert_eq!(r.ambiguous, None);
}

#[test]
fn since_keeps_attempts_started_at_or_after_it() {
    let attempts = vec![
        started("new", "2026-03-02T10:00:00Z"),
        started("edge", "2026-03-01T12:00:00+02:00"),
        started("old", "2026-02-28T23:59:59Z"),
        started("unreadable", "yesterday"),
    ];
    let args = HistoryArgs { since: Some("2026-03-01T10:00:00Z".into()), ..history_args() };
    let r = history_of(attempts, &args).unwrap();
    let ids: Vec<&str> = r.attempts.iter().map(|a| a.run_id.as_str()).collect();
    assert_eq!(ids, ["new", "edge"]);
    assert_eq!(r.truncated, None);
}

#[test]
fn a_since_that_is_not_a_timestamp_is_refused_quoting_it() {
    let attempts = vec![started("a", "2026-03-02T10:00:00Z")];
    let args = HistoryArgs { since: Some("last tuesday".into()), ..history_args() };
    let err = history_of(attempts, &args).err().unwrap();
    assert!(err.starts_with("`last tuesday` is not an RFC 3339 timestamp: "), "{err}");
    assert!(err.len() > "`last tuesday` is not an RFC 3339 timestamp: ".len());
}

#[test]
fn since_applies_before_the_limit_cuts() {
    let attempts = vec![
        started("a", "2026-03-03T00:00:00Z"),
        started("b", "2026-03-02T00:00:00Z"),
        started("c", "2026-01-01T00:00:00Z"),
    ];
    let args = HistoryArgs { since: Some("2026-03-01T00:00:00Z".into()), limit: 1, ..history_args() };
    let r = history_of(attempts, &args).unwrap();
    assert_eq!(r.attempts.len(), 1);
    assert_eq!(r.attempts[0].run_id, "a");
    assert_eq!(r.truncated, Some(1));
}
