use centinel_core::counts::Counts;
use centinel_core::domain::Note;
use centinel_core::ops::investigate::{
    promotion, shape_findings, suggest_id, web_target, InvestigateReport, Lead, Probe, Promote, ReadQuality,
    Recognised, SeedSummary, SiteCrumb,
};
use centinel_core::ops::probe::{resolution, NetArgs, Resolution, ADDRESSES, REQUESTS};
use centinel_core::page::Page;

#[test]
fn an_id_is_suggested_from_the_host_a_person_would_have_typed() {
    let id = |u: &str| {
        let url = web_target(u).unwrap();
        suggest_id(url.host.as_deref())
    };
    assert_eq!(id("https://publicrec.hillsclerk.com/Civil/"), "publicrec");
    // `www` is not a name anybody would file a source under.
    assert_eq!(id("https://www.tampa.gov/"), "tampa");
    assert_eq!(id("https://tampagov.hylandcloud.com/251agendaonline/"), "tampagov");
    // Anything a source id would refuse becomes something typeable, never an error.
    assert_eq!(id("https://a_b.gov/"), "a-b");
    assert_eq!(suggest_id(None), "source");
    assert_eq!(suggest_id(Some("www")), "source");
}

/// The printed line and the offer the CLI makes are one thing.
#[test]
fn the_command_is_the_fields_and_the_pin_is_only_there_when_something_recognised_it() {
    let promote = Promote {
        id: "publicrec".into(),
        site: "https://publicrec.hillsclerk.com/Civil/".into(),
        strategy: Some("listing".into()),
    };
    assert_eq!(
        promote.command(),
        "centinel source add publicrec --site https://publicrec.hillsclerk.com/Civil/ \
         --strategy=listing"
    );

    let guessed = Promote {
        strategy: None,
        ..promote
    };
    assert!(!guessed.command().contains("--strategy"), "{}", guessed.command());
}

#[test]
fn only_an_http_address_is_investigated() {
    assert!(web_target("https://tampa.gov/").is_ok());
    assert_eq!(
        web_target("ftp://tampa.gov/").unwrap_err(),
        "`ftp://tampa.gov/` is not an http(s) address"
    );
    assert!(web_target("not a url").is_err());
}

/// A walk that found addresses earns the line even when nothing recognised the seed.
#[test]
fn a_promotion_needs_recognition_or_addresses() {
    let p = promotion(false, Some(4260), "boston".into(), "https://boston.gov/".into(), None);
    assert!(p.unwrap().strategy.is_none());
    assert!(promotion(false, Some(0), "x".into(), "y".into(), None).is_none());
    assert!(promotion(false, None, "x".into(), "y".into(), None).is_none());
    let p = promotion(true, None, "x".into(), "y".into(), Some("listing".into())).unwrap();
    assert_eq!(p.strategy.as_deref(), Some("listing"));
}

#[test]
fn a_page_that_is_mostly_script_is_a_lead() {
    let findings = shape_findings(96_000, 89_600, 24, true);
    assert_eq!(findings.len(), 1);
    assert!(findings[0].contains("most of the page is script"), "{findings:?}");
    assert!(findings[0].contains("24 anchors"), "{findings:?}");
    let lead = Lead {
        read: ReadQuality { chars: 695, per_kb: 7, link_percent: 12, poor: false, findings: vec![] },
        anchors: 24,
        script_bytes: 89_600,
        sitemap_declared: true,
        findings,
    };
    assert!(lead.is_lead());

    let ordinary = Lead {
        read: ReadQuality { chars: 9000, per_kb: 300, link_percent: 5, poor: false, findings: vec![] },
        anchors: 40,
        script_bytes: 100,
        sitemap_declared: true,
        findings: shape_findings(10_000, 100, 40, true),
    };
    assert!(!ordinary.is_lead());
    assert_eq!(
        shape_findings(10, 1, 0, false),
        ["no sitemap declared, so there is no surface to walk"]
    );
}

#[test]
fn a_probe_that_ran_out_is_marked_rather_than_reported_as_a_size() {
    let probe = Probe {
        addresses: 500,
        complete: false,
        strategy: "sitemap".into(),
        by_fallback: true,
        requests_allowed: REQUESTS,
        sample: vec!["https://x.gov/a".into()],
        figures: Counts::from_pairs(&[("sitemaps_fetched", 3)]),
        declared_total: Some(12_000),
    };
    let mut p = Page::new();
    probe.render(&mut p);
    assert_eq!(
        p.to_text(),
        "\nsize\n  \
         ! 500 address(es) across 3 sitemaps   (probe STOPPED, 25 req allowed — there is more)\n  \
         walked by   `sitemap`, as a fallback — nothing recognised this address, and `run` would do the same\n  \
         declared    the source names 12,000\n  \
         https://x.gov/a\n"
    );
    assert_eq!(ADDRESSES, 500);
}

#[test]
fn a_seed_that_never_answered_does_not_report_a_status_it_never_gave() {
    let seed = SeedSummary {
        http_status: None,
        bytes: 0,
        kind: "other".into(),
        final_url: Some("https://www.x.gov/".into()),
        robots_declared: false,
    };
    let mut p = Page::new();
    seed.render(&mut p);
    assert_eq!(
        p.to_text(),
        "\nseed\n  \
         no status · 0 B · other · robots.txt unreachable, rules assumed\n  \
         served from   https://www.x.gov/\n"
    );
}

#[test]
fn a_runner_up_is_context_not_a_verdict() {
    let r = Recognised {
        strategy: "onbase".into(),
        keyed_on: "Hyland OnBase Agenda Online".into(),
        kind: "product".into(),
        best: false,
        evidence: vec![Note::new("generator", "OnBase")],
        warnings: vec![],
    };
    let mut p = Page::new();
    r.render(&mut p);
    assert_eq!(
        p.to_text(),
        "\nalso\n    onbase — Hyland OnBase Agenda Online (product)\n"
    );
}

#[test]
fn a_source_is_typed_configured_or_remembered() {
    assert!(resolution(true, true, true).is_err());
    assert_eq!(resolution(true, false, true), Ok(Resolution::Typed));
    assert_eq!(resolution(false, false, true), Ok(Resolution::Configured));
    assert_eq!(resolution(false, false, false), Ok(Resolution::Stored));
    let net = NetArgs::default();
    assert_eq!(net.timeout_secs, 30);
    assert!(net.user_agent.contains("Centinel"));
}

#[test]
fn a_lead_reads_its_measurements_and_then_its_findings() {
    let lead = Lead {
        read: ReadQuality {
            chars: 695,
            per_kb: 7,
            link_percent: 84,
            poor: true,
            findings: vec!["84% of the text is link text".into()],
        },
        anchors: 24,
        script_bytes: 2048,
        sitemap_declared: false,
        findings: vec!["no sitemap declared, so there is no surface to walk".into()],
    };
    let mut p = Page::new();
    lead.render(&mut p);
    assert_eq!(
        p.to_text(),
        "\nmeasured\n\
         \x20 text        695 chars, 7 per KB, 84% link text\n\
         \x20 markup      24 anchors, 2.00 KiB of <script>\n\
         \x20 sitemap     none declared\n\
         \n\
         \x20 ! a lead\n\
         \x20 84% of the text is link text\n\
         \x20 no sitemap declared, so there is no surface to walk\n"
    );
}

#[test]
fn an_investigation_without_a_walk_says_it_did_not_look() {
    let r = InvestigateReport {
        address: "https://tampa.gov/".into(),
        seed: SeedSummary {
            http_status: Some("200".into()),
            bytes: 1024,
            kind: "html".into(),
            final_url: None,
            robots_declared: true,
        },
        recognised: Vec::new(),
        probe: None,
        lead: None,
        crumbs: vec![SiteCrumb { host: "cdn.tampa.gov".into(), links: 3 }],
        promote: None,
        warnings: vec!["robots\nslow".into()],
        elapsed_millis: 1500,
    };
    let mut p = Page::new();
    r.render(&mut p);
    let out = p.to_text();
    assert!(out.starts_with("https://tampa.gov/  1.5s\n"), "{out}");
    assert!(out.contains("\n  recognised\n    ! nothing\n"), "{out}");
    assert!(out.contains("    cdn.tampa.gov                   3 link(s)\n"), "{out}");
    assert!(out.contains("    ! robots slow\n"), "{out}");
    assert!(out.ends_with("`--no-probe` means no walk was tried. Run without it to see whether the fallback finds anything.\n"), "{out}");
}

#[test]
fn a_suggested_id_is_always_typeable() {
    assert_eq!(suggest_id(Some("www.tampa.gov")), "tampa");
    assert_eq!(suggest_id(Some("www..")), "source");
    assert_eq!(suggest_id(None), "source");
    assert!(suggest_id(Some("a_b.org")).chars().all(|c| c.is_ascii_lowercase() || c.is_ascii_digit() || c == '-'));
}

use centinel_core::ops::investigate::seed_is_collected;

#[test]
fn a_probe_reports_its_count_its_ceiling_and_a_short_sample() {
    let found: Vec<String> = (0..9).map(|i| format!("https://a.gov/{i}")).collect();
    let p = Probe::walked(&found, true, "sitemap".into(), false, REQUESTS, Counts::new(), Some(12));
    assert_eq!(p.addresses, 9);
    assert!(!p.complete, "a walk that hit its ceiling is not a total");
    assert!(p.by_fallback);
    assert_eq!(p.sample.len(), 5);
    assert_eq!(p.sample[4], "https://a.gov/4");
    assert_eq!(p.declared_total, Some(12));
}

#[test]
fn an_index_of_documents_is_not_what_gets_collected() {
    assert!(!seed_is_collected(Some(true)));
    assert!(seed_is_collected(Some(false)));
    assert!(seed_is_collected(None));
}
