use centinel_core::domain::{Note, NoteMark};
use centinel_core::ops::check::{
    address_extension, default_head, enumeration_for, forced_strategy, head_lines, moved_to, recognised, slug,
    CheckReport, Checked, Enumerated, Enumeration, ReadVerdict, Target,
};
use centinel_core::page::Page;

#[test]
fn a_url_is_fetched_and_everything_else_is_a_path() {
    assert!(matches!(Target::of("https://tampa.gov/a"), Target::Url(_)));
    assert!(matches!(Target::of("http://tampa.gov/a"), Target::Url(_)));
    assert!(matches!(Target::of("./agenda.pdf"), Target::File(_)));
    assert!(matches!(Target::of("/srv/agenda.pdf"), Target::File(_)));
    // Not a scheme this fetches, so it is a path — and will fail as one.
    assert!(matches!(Target::of("ftp://x/a"), Target::File(_)));
}

/// The name only has to be recognisable and typeable; uniqueness is the number in
/// front of it. So an address with nothing usable in it must still yield something.
#[test]
fn a_filename_is_recovered_from_whatever_the_address_offers() {
    assert_eq!(
        slug("https://tampa.gov/document/hurricane-guide"),
        "hurricane-guide"
    );
    assert_eq!(slug("https://tampa.gov/files/agenda.pdf"), "agenda");
    // A query string is a viewer instruction, not part of the name.
    assert_eq!(slug("https://x.gov/view?id=4102&page=2"), "view");
    assert_eq!(slug("https://tampa.gov/budget/"), "budget");
    assert_eq!(slug("/srv/corpus/minutes.docx"), "minutes");
    // A bare origin has only its host to offer, which is still recognisable.
    assert_eq!(slug("https://tampa.gov"), "tampa");
    assert_eq!(slug("https://tampa.gov/"), "tampa");
    assert_eq!(slug("///"), "document");
}

#[test]
fn an_extension_that_is_not_one_is_not_taken_for_one() {
    assert_eq!(
        address_extension("https://x.gov/a/minutes.pdf").as_deref(),
        Some("pdf")
    );
    assert_eq!(
        address_extension("https://x.gov/a/report.pdf?v=2").as_deref(),
        Some("pdf")
    );
    // A date, not an extension. Naming a file `agenda.2026` opens it in nothing.
    assert_eq!(address_extension("https://x.gov/agenda.2026"), None);
    assert_eq!(address_extension("https://x.gov/view"), None);
    // Too long to be one — a path segment that merely contains a dot.
    assert_eq!(address_extension("https://x.gov/a.presentation"), None);
}

#[test]
fn a_slug_keeps_only_what_a_filename_can_hold() {
    assert_eq!(slug("https://x.gov/a b/Über Plan!.pdf"), "ber-Plan");
    assert_eq!(slug("https://x.gov/.hidden"), "hidden");
    assert_eq!(slug("https://x.gov/.."), "document");
    let long = format!("https://x.gov/{}", "a".repeat(60));
    assert_eq!(slug(&long).len(), 48);
    assert_eq!(slug("C:\\docs\\report.final.pdf"), "report-final");
}

#[test]
fn a_trailing_dot_component_is_not_the_name() {
    assert_eq!(address_extension("https://x.gov/a/minutes.pdf/."), Some("pdf".to_string()));
    assert_eq!(address_extension("https://x.gov/a/.."), None);
    assert_eq!(address_extension("https://x.gov/a/.bashrc"), None);
}

#[test]
fn a_strategy_probe_against_a_local_file_says_why_it_cannot() {
    let r = enumeration_for(&Some("auto".into()), &Target::of("./agenda.pdf"));
    assert_eq!(r.unwrap_err(), "--strategy needs a URL: enumeration is a walk of a host");
    assert!(matches!(enumeration_for(&None, &Target::of("./agenda.pdf")), Ok(Enumeration::Skip)));
}

#[test]
fn nothing_is_enumerated_unless_a_strategy_is_asked_for() {
    assert!(matches!(enumeration_for(&None, &Target::of("https://tampa.gov/")), Ok(Enumeration::Skip)));
    match enumeration_for(&Some("listing".into()), &Target::of("https://tampa.gov/")) {
        Ok(Enumeration::Probe { url, forced }) => {
            assert_eq!(url, "https://tampa.gov/");
            assert_eq!(forced.as_deref(), Some("listing"));
        }
        other => panic!("{other:?}"),
    }
    assert_eq!(forced_strategy("auto"), None);
}

#[test]
fn the_head_is_the_first_lines_of_the_text() {
    assert_eq!(default_head(), 20);
    assert_eq!(head_lines("# A\n\nb\nc\n", 2), "# A\n");
    assert_eq!(head_lines("one\r\ntwo", 5), "one\ntwo");
    assert_eq!(head_lines("", 3), "");
}

#[test]
fn a_redirect_is_named_only_when_it_moved_the_bytes() {
    assert_eq!(moved_to(Some("https://a/x".into()), "https://a/x"), None);
    assert_eq!(moved_to(Some("https://a/y".into()), "https://a/x").as_deref(), Some("https://a/y"));
    assert_eq!(moved_to(None, "https://a/x"), None);
}

fn note(label: &str, detail: &str, mark: Option<NoteMark>) -> Note {
    Note { label: label.into(), detail: detail.into(), mark }
}

#[test]
fn recognition_is_read_back_from_the_strategy_note() {
    assert!(recognised(&vec![note("strategy", "listing", None)]));
    assert!(!recognised(&vec![note("strategy", "nothing recognised this", Some(NoteMark::Warn))]));
    assert!(!recognised(&vec![note("seen", "x", None)]));
    assert!(recognised(&vec![note("seen", "x", Some(NoteMark::Warn)), note("strategy", "y", Some(NoteMark::Good))]));
}

#[test]
fn an_enumeration_reads_as_a_sample_of_a_count() {
    let found: Vec<String> = (0..12).map(|i| format!("https://t.gov/{i}")).collect();
    let e = Enumerated::of(
        "listing".into(),
        &found,
        vec![note("strategy", "listing recognised an index", None)],
        vec!["probe ran out\nof requests".into()],
    );
    assert!(e.recognised);
    assert_eq!(e.addresses, 12);
    assert_eq!(e.sample.len(), 10);
    let mut p = Page::new();
    e.render(&mut p);
    let mut want = String::from("\nenumeration\n  ✓ listing — 12 address(es)\n  strategy    listing recognised an index\n  ! probe ran out of requests\n\n");
    for i in 0..10 {
        want.push_str(&format!("  https://t.gov/{i}\n"));
    }
    want.push_str("  … and 2 more\n");
    assert_eq!(p.to_text(), want);
}

fn checked(text: &str) -> Checked {
    Checked {
        address: "/tmp/page.html".into(),
        enclosed: false,
        bytes: 2048,
        declared_type: Some("text/html".into()),
        type_inferred: true,
        kind: "html".into(),
        http_status: None,
        final_url: None,
        as_served: "/tmp/c/01-page.html".into(),
        extracted: Some("/tmp/c/01-page.md".into()),
        tool: Some("readability 0.1".into()),
        title: None,
        chars: 120,
        verdict: Some(ReadVerdict { links: 4, link_percent: 84, poor: true, findings: vec!["a menu".into()] }),
        recovered_by_fallback: false,
        pages_needing_ocr: 0,
        notes: vec![],
        unextractable: None,
        preview: text.into(),
        text: None,
    }
}

/// A read with a finding against it is not a tick, and the paths come after the text.
#[test]
fn a_check_reads_the_text_before_the_paths() {
    let r = CheckReport {
        target: "/tmp/page.html".into(),
        dir: "/tmp/c".into(),
        temporary: true,
        documents: vec![checked("# Home\nMenu")],
        not_fetched: vec![],
        enumeration: None,
        opener: "xdg-open".into(),
        elapsed_millis: 300,
    };
    let mut p = Page::new();
    r.render(&mut p);
    assert_eq!(
        p.to_text(),
        "/tmp/page.html  0.3s\n\
         \x20 /tmp/page.html\n\
         \x20   html  ·  2.00 KiB  ·  text/html (from the filename)\n\
         \x20   ! readability 0.1  ·  120 of text  ·  84% link text\n\
         \x20     ! a menu\n\
         \x20     ! no title found\n\
         \n\
         \x20   # Home\n\
         \x20   Menu\n\
         \x20   …  (--print for all of it)\n\
         \n\
         \x20   read  less /tmp/c/01-page.md\n\
         \x20   open  xdg-open /tmp/c/01-page.html\n\
         \n\
         \x20 files are in /tmp/c — nothing was stored\n"
    );
}

#[test]
fn nothing_extractable_says_why() {
    let mut c = checked("");
    c.unextractable = Some("audio has no text".into());
    c.extracted = None;
    let mut p = Page::new();
    c.render(&mut p);
    assert_eq!(
        p.to_text(),
        "/tmp/page.html\n  html  ·  2.00 KiB  ·  text/html (from the filename)\n  ✗ no text came out\n    audio has no text\n"
    );
}

#[test]
fn an_address_with_nothing_usable_is_named_document() {
    assert_eq!(slug("???#!"), "document");
    assert_eq!(slug("https://x.org/--/"), "document");
    let long = slug(&format!("https://x.org/{}.pdf", "a".repeat(80)));
    assert_eq!(long.len(), 48);
    assert!(!slug("https://x.org/-lead.pdf").starts_with('-'));
}

use centinel_core::ops::check::expand_tilde;

#[test]
fn a_leading_tilde_is_read_against_the_home_directory() {
    assert_eq!(expand_tilde("~/docs/a.pdf", Some("/home/ana")), "/home/ana/docs/a.pdf");
    assert_eq!(expand_tilde("~/a", Some("/home/ana/")), "/home/ana/a");
    assert_eq!(expand_tilde("~", Some("/home/ana")), "/home/ana");
    assert_eq!(expand_tilde("~ana/a", Some("/home/ana")), "~ana/a");
    assert_eq!(expand_tilde("~/a", None), "~/a");
    match Target::at_home("~/agenda.pdf", Some("/home/ana")) {
        Target::File(p) => assert_eq!(p, "/home/ana/agenda.pdf"),
        other => panic!("{other:?}"),
    }
    assert!(matches!(Target::at_home("https://tampa.gov/", Some("/home/ana")), Target::Url(_)));
}

use centinel_core::ops::check::file_stem;

#[test]
fn a_documents_files_are_numbered_two_digits_then_slugged() {
    assert_eq!(file_stem(0, "https://tampa.gov/docs/Agenda.pdf"), "01-Agenda");
    assert_eq!(file_stem(11, "https://tampa.gov/"), "12-tampa");
    assert_eq!(file_stem(99, "???"), "100-document");
}

#[test]
fn a_checked_document_names_a_redirect_only_when_it_moved() {
    let c = Checked::as_fetched(
        "https://a.gov/x".into(), false, 10, None, false, "html".into(), Some("200".into()),
        Some("https://a.gov/x".into()), "/tmp/01-x.html".into(),
    );
    assert_eq!(c.final_url, None);
    let mut c = Checked::as_fetched(
        "https://a.gov/x".into(), false, 10, None, false, "html".into(), None,
        Some("https://b.gov/x".into()), "/tmp/01-x.html".into(),
    );
    assert_eq!(c.final_url.as_deref(), Some("https://b.gov/x"));
    c.read(
        "/tmp/01-x.md".into(), "htmd", "0.1", None, "one\ntwo\nthree",
        ReadVerdict { links: 0, link_percent: 0, poor: false, findings: vec![] }, false, 0, vec![], 2, false,
    );
    assert_eq!(c.tool.as_deref(), Some("htmd 0.1"));
    assert_eq!(c.chars, 13);
    assert_eq!(c.preview, "one\ntwo");
    assert_eq!(c.text, None);
}
