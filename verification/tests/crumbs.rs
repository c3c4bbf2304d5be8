use centinel_core::ops::crumbs::{
    host_arg, previous_text, select_sources, settle, Carrier, Crumb, CrumbsArgs, CrumbsReport,
    Decision, Field, Ruling, Standing,
};
use centinel_core::page::Page;

fn crumb(host: &str, links: usize) -> Crumb {
    Crumb {
        host: host.into(),
        links,
        pages: links,
        example: format!("https://{host}/x"),
        standing: Standing::Open,
    }
}

fn field(collected: &[&str], ignored: &[&str]) -> Field {
    Field {
        collected: collected.iter().map(|s| s.to_string()).collect(),
        decisions: ignored
            .iter()
            .map(|h| Decision {
                host: h.to_string(),
                ruling: Ruling::Ignore,
                at: "2026-08-01T00:00:00Z".into(),
                note: None,
            })
            .collect(),
    }
}

fn render(r: &CrumbsReport) -> String {
    let mut p = Page::new();
    r.render(&mut p);
    p.to_text()
}

#[test]
fn a_host_is_taken_from_a_host_or_from_a_url_on_it() {
    assert_eq!(host_arg("Facebook.com").unwrap(), "facebook.com");
    assert_eq!(host_arg("  facebook.com/  ").unwrap(), "facebook.com");
    assert_eq!(
        host_arg("https://www.facebook.com/CityofTampa?x=1").unwrap(),
        "www.facebook.com"
    );

    for bad in ["", "mailto:clerk@tampa.gov", "two hosts", "a/b", "https://"] {
        assert!(host_arg(bad).is_err(), "`{bad}` was accepted as a host");
    }
    assert_eq!(
        host_arg("a/b").unwrap_err(),
        "`a/b` is not a host, or a http(s) URL on one"
    );
}

/// A refused host stops being offered, and is still counted; `--all` shows it.
#[test]
fn a_refused_host_stops_being_offered_and_all_still_shows_it() {
    let f = field(&[], &["www.facebook.com"]);
    let l = settle(vec![crumb("www.facebook.com", 3)], &f, false, 25);
    assert!(l.crumbs.is_empty());
    assert_eq!(l.hidden, 1, "hidden hosts must still be counted");

    let l = settle(vec![crumb("www.facebook.com", 3)], &f, true, 25);
    assert_eq!(l.crumbs[0].standing, Standing::Ignored);
    assert_eq!(l.hidden, 0);
}

/// The promotion already happened, so the crumb is not one — whatever an old ruling says.
#[test]
fn a_host_this_store_already_collects_is_not_offered_as_a_candidate() {
    let f = field(&["publicrec.hillsclerk.com"], &["publicrec.hillsclerk.com"]);
    let l = settle(vec![crumb("publicrec.hillsclerk.com", 2)], &f, false, 25);
    assert_eq!(l.crumbs[0].standing, Standing::Collected);
    assert_eq!(f.standing_of("elsewhere.gov"), Standing::Open);
}

#[test]
fn the_list_is_cut_at_max_and_says_how_much_was_cut() {
    let f = field(&[], &["b.gov"]);
    let cs = vec![crumb("a.gov", 9), crumb("b.gov", 8), crumb("c.gov", 7), crumb("d.gov", 6)];
    let l = settle(cs, &f, false, 2);
    let hosts: Vec<&str> = l.crumbs.iter().map(|c| c.host.as_str()).collect();
    assert_eq!(hosts, ["a.gov", "c.gov"]);
    assert_eq!((l.hidden, l.truncated), (1, 1));
    assert_eq!(CrumbsArgs::default().max, 25);
}

/// A typo must say so rather than answer "no crumbs".
#[test]
fn an_unknown_source_names_what_the_store_holds() {
    let known = vec!["tampa".to_string(), "pinellas".to_string()];
    let err = select_sources(&known, Some("orlando")).unwrap_err();
    assert_eq!(err, "no source `orlando` in this store — it holds tampa, pinellas");
    assert!(select_sources(&vec![], Some("x")).unwrap_err().ends_with("holds none"));
    assert_eq!(select_sources(&known, Some("tampa")).unwrap(), ["tampa"]);
    assert_eq!(select_sources(&known, None).unwrap(), ["tampa", "pinellas"]);
}

#[test]
fn the_list_ends_with_the_next_command_for_the_first_open_host() {
    let mut refused = crumb("www.facebook.com", 5);
    refused.standing = Standing::Ignored;
    let r = CrumbsReport::List {
        sources: vec!["tampa".into()],
        pages: 2,
        crumbs: vec![refused, crumb("publicrec.hillsclerk.com", 2)],
        hidden: 0,
        truncated: 3,
        unread: 1,
        elapsed_millis: 1500,
    };
    let out = render(&r);
    assert!(out.starts_with("crumbs  2 pages in 1 source · 1.5s\n"), "{out}");
    assert!(out.contains("✗ www.facebook.com  5  5  refused"), "{out}");
    assert!(out.contains("→ … and 3 more, raise --max to see them"), "{out}");
    assert!(out.contains("! 1 blob could not be read"), "{out}");
    assert!(out.contains("\ncentinel investigate https://publicrec.hillsclerk.com/x\n"), "{out}");
}

#[test]
fn an_empty_corpus_says_why_the_list_is_empty() {
    let r = CrumbsReport::List {
        sources: vec![],
        pages: 0,
        crumbs: vec![],
        hidden: 0,
        truncated: 0,
        unread: 0,
        elapsed_millis: 0,
    };
    assert!(render(&r).contains("Run `centinel run` first"));
}

#[test]
fn show_names_the_pages_that_carried_it_and_counts_the_rest() {
    let r = CrumbsReport::Show {
        host: "vendor.example.com".into(),
        links: 12,
        pages: 12,
        standing: Standing::Open,
        note: None,
        carried_by: vec![Carrier {
            address: "https://www.tampa.gov/page/0".into(),
            at: Some("2026-08-01".into()),
            blob: Some("3f8a1c9d0b7e".into()),
        }],
        dropped: 11,
        example: Some("https://vendor.example.com/login".into()),
        elapsed_millis: 200,
    };
    assert_eq!(
        render(&r),
        "vendor.example.com  12 links · 12 pages · 0.2s\n\
         \n  \
         carried by\n    \
         https://www.tampa.gov/page/0\n      \
         2026-08-01 · 3f8a1c9d0b7e\n    \
         … and 11 pages more\n\
         \n\
         centinel investigate https://vendor.example.com/login\n"
    );
}

#[test]
fn a_ruling_reports_the_one_it_replaced() {
    let d = Decision {
        host: "fonts.googleapis.com".into(),
        ruling: Ruling::Ignore,
        at: "2026-08-01T00:00:00Z".into(),
        note: None,
    };
    let previous = previous_text(&d);
    assert!(previous.contains("ignore"), "{previous}");
    let r = CrumbsReport::Ruled {
        host: "fonts.googleapis.com".into(),
        ruling: Ruling::Ignore,
        at: "2026-08-02".into(),
        note: Some("fonts".into()),
        previous: Some(previous),
    };
    assert_eq!(
        render(&r),
        "✓ refused fonts.googleapis.com\n  \
         fonts\n  \
         replaces ignore on 2026-08-01T00:00:00Z\n  \
         recorded at 2026-08-02 · `centinel crumbs allow fonts.googleapis.com` takes it back\n"
    );
}
