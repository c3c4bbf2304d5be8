use centinel_core::counts::Counts;
use centinel_core::domain::{Note, SourceKind};
use centinel_core::ops::discover::DiscoverReport;
use centinel_core::page::Page;

fn render_to_string(report: &DiscoverReport) -> String {
    let mut p = Page::new();
    report.render(&mut p);
    p.to_text()
}

fn report(found: usize, new: usize, previous: Option<usize>) -> DiscoverReport {
    DiscoverReport {
        source: "tampa".into(),
        kind: SourceKind::Site,
        target: "https://www.tampa.gov".into(),
        method: "sitemap".into(),
        found,
        new,
        previous_run: previous,
        notes: Vec::new(),
        figures: Counts::new(),
        warnings: Vec::new(),
        sample: Vec::new(),
        written_to_log: true,
    }
}

#[test]
fn the_count_and_what_is_new_both_lead() {
    let out = render_to_string(&report(12_000, 40, None));
    assert!(out.contains("12,000"), "{out}");
    assert!(out.contains("40 new"), "{out}");
}

/// A shrinking snapshot is usually a truncated pass, so it must not read as a neutral
/// figure.
#[test]
fn a_shrinking_snapshot_is_flagged() {
    let out = render_to_string(&report(400, 0, Some(12_000)));
    assert!(out.contains("-11600"), "{out}");
    assert!(out.contains('!') || out.contains('⚠'), "unmarked: {out}");
}

/// The renderer paints notes it does not understand.
#[test]
fn a_sources_own_provenance_is_shown_verbatim() {
    let mut r = report(831, 831, None);
    r.kind = SourceKind::Channel;
    r.method = "playlist".into();
    r.notes = vec![
        Note::ok_or_warn("streams", "831 videos", true),
        Note::ok_or_warn("shorts", "0 videos", false),
        Note::new("yt-dlp", "2026.01.15"),
    ];

    let out = render_to_string(&r);
    assert!(out.contains("streams"), "{out}");
    assert!(out.contains("831 videos"), "{out}");
    assert!(out.contains("2026.01.15"), "{out}");
    assert!(out.contains("shorts"), "an empty tab is the point: {out}");
}

#[test]
fn a_dry_run_says_it_wrote_nothing() {
    let mut r = report(10, 10, None);
    r.written_to_log = false;
    assert!(render_to_string(&r).contains("preview only"));
}

#[test]
fn a_growing_snapshot_reads_as_a_plain_figure() {
    let mut r = report(12, 3, Some(9));
    r.warnings = vec!["robots.txt\nunreadable".into()];
    r.sample = vec!["https://www.tampa.gov/a".into()];
    r.notes = vec![Note::ok_or_warn("robots.txt", "read", true)];
    assert_eq!(
        render_to_string(&r),
        "tampa  https://www.tampa.gov\n  \
         12 addresses discovered · 3 new\n  \
         +3 against the previous run's 9\n\
         \n  \
         ✓ robots.txt   read\n  \
         ✓ written to the log\n  \
         ! robots.txt unreadable\n\
         \n  \
         sample\n  \
         https://www.tampa.gov/a\n"
    );
}

#[test]
fn one_address_is_not_addresses() {
    let out = render_to_string(&report(1, 1, Some(1)));
    assert!(out.contains("1 address discovered · 1 new"), "{out}");
    assert!(out.contains("+0 against the previous run's 1"), "{out}");
}
