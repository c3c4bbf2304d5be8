use centinel_core::counts::Counts;
use centinel_core::op::Verdict;
use centinel_core::ops::extract::{
    default_sample, left_behind, preview, wants_kind, ExtractArgs, ExtractReport, ExtractSample, Outcome, PoorRead,
    Step, Unreadable,
};
use centinel_core::ops::investigate::ReadQuality;
use centinel_core::page::Page;

fn clean_read(chars: usize) -> ReadQuality {
    ReadQuality { chars, per_kb: 100, link_percent: 0, poor: false, findings: Vec::new() }
}

fn text(t: &str, tool: &str) -> Outcome {
    Outcome::Text { text: t.into(), title: None, tool: tool.into(), version: "0.1".into() }
}

fn audio() -> Outcome {
    Outcome::Unextractable { reason: "audio has no text without a transcriber".into() }
}

fn render_to_string(r: &ExtractReport) -> String {
    let mut p = Page::new();
    r.render(&mut p);
    p.to_text()
}

#[test]
fn the_defaults_sample_five_and_refresh_nothing() {
    let a = ExtractArgs::default();
    assert_eq!(a.sample, 5);
    assert_eq!(default_sample(), 5);
    assert!(!a.refresh);
    assert!(a.limit.is_none() && a.kind.is_none() && a.source.is_none());
}

/// A first run reads the blob and files it; the second finds it settled.
#[test]
fn a_blob_nothing_can_extract_is_attempted_once() {
    let args = ExtractArgs::default();
    let mut first = ExtractReport::new(vec!["tampa".into()]);
    assert_eq!(first.step(&args, false, false), Step::Read);
    let item = first.record(
        "https://y.test/watch?v=a#audio",
        "audio",
        44,
        &audio(),
        false,
        &clean_read(0),
        args.sample,
        3,
    );
    assert_eq!(item.verdict, Verdict::Missing);
    assert_eq!(item.produced, Some(0));
    assert_eq!(first.attempted, 1);
    assert_eq!(first.unextractable, 1);
    assert_eq!(first.already_unextractable, 0);
    assert_eq!(first.unreadable.len(), 1, "and it is reported once");

    let mut again = ExtractReport::new(vec!["tampa".into()]);
    let step = again.step(&args, false, true);
    assert_eq!(step, Step::AlreadyUnextractable);
    again.skipped(step);
    assert_eq!(again.attempted, 0, "the second run must not try again");
    assert_eq!(again.unextractable, 0);
    assert_eq!(again.already_unextractable, 1);
    assert!(again.unreadable.is_empty(), "not news twice");
}

#[test]
fn refresh_reopens_a_question_a_previous_run_closed() {
    let args = ExtractArgs { refresh: true, ..ExtractArgs::default() };
    let r = ExtractReport::new(vec!["tampa".into()]);
    assert_eq!(r.step(&args, false, true), Step::Read);
    assert_eq!(r.step(&args, true, false), Step::Read);
}

#[test]
fn an_extractable_document_is_derived_and_then_skipped() {
    let args = ExtractArgs::default();
    let mut first = ExtractReport::new(vec!["tampa".into()]);
    let item = first.record(
        "https://tampa.gov/a",
        "html",
        60,
        &text("# Agenda\n\nItem one.", "readability"),
        false,
        &clean_read(19),
        args.sample,
        4,
    );
    assert_eq!(item.verdict, Verdict::Clean);
    assert_eq!(item.produced, Some(19));
    assert_eq!(first.extracted, 1);
    assert_eq!(first.unextractable, 0);
    assert_eq!(first.chars_of_text, 19);
    assert_eq!(first.by_tool.get("readability"), Some(1));
    assert_eq!(first.by_kind.get("html"), Some(1));
    assert_eq!(first.sample.len(), 1);
    assert_eq!(first.sample[0].preview, "# Agenda  Item one.");

    let mut again = ExtractReport::new(vec!["tampa".into()]);
    let step = again.step(&args, true, false);
    assert_eq!(step, Step::AlreadyDerived);
    again.skipped(step);
    assert_eq!(again.already_derived, 1);
    assert_eq!(again.already_unextractable, 0);
    assert_eq!(again.attempted, 0);
}

#[test]
fn a_page_that_extracts_to_a_menu_is_counted_and_named() {
    let mut r = ExtractReport::new(vec!["cleveland".into()]);
    let read = ReadQuality {
        chars: 614,
        per_kb: 3,
        link_percent: 73,
        poor: true,
        findings: vec!["73% of the text is link text. This is a menu, not a page".into()],
    };
    let item = r.record(
        "https://cleveland.test/landmarks/a",
        "html",
        191_000,
        &text("Department of Everything 0", "readability"),
        false,
        &read,
        5,
        1,
    );
    assert_eq!(item.verdict, Verdict::Warn);
    assert_eq!(item.detail.as_deref(), Some("73% of the text is link text. This is a menu, not a page"));
    assert_eq!(r.extracted, 1, "it did produce text");
    assert_eq!(r.unextractable, 0, "so this is not the unreadable case");
    assert_eq!(r.poor_reads, 1, "and the text is not worth having");
    let named = r.poor.first().expect("named, not merely counted");
    assert_eq!(named.url, "https://cleveland.test/landmarks/a");
    assert!(named.findings.iter().any(|f| f.contains("link text")));
}

#[test]
fn an_ordinary_article_is_not_counted_a_poor_read() {
    let mut r = ExtractReport::new(vec!["cleveland".into()]);
    r.record("https://cleveland.test/police", "html", 900, &text("The mission of the Division.", "readability"), false, &clean_read(28), 5, 1);
    assert_eq!(r.extracted, 1);
    assert_eq!(r.poor_reads, 0);
    assert!(r.poor.is_empty());
}

#[test]
fn a_limit_says_how_many_documents_it_left_behind() {
    let args = ExtractArgs { limit: Some(1), ..ExtractArgs::default() };
    let mut r = ExtractReport::new(vec!["boston".into()]);
    assert_eq!(r.step(&args, false, false), Step::Read);
    r.record("https://boston.test/0", "html", 70, &text("Page 0", "readability"), false, &clean_read(6), 5, 1);
    assert_eq!(r.step(&args, false, false), Step::Stop);
    let ahead = [(false, false), (false, false), (false, false)];
    r.stopped(left_behind(args.refresh, &ahead));
    assert_eq!(r.attempted, 1);
    assert_eq!(r.left_by_limit, 3, "the three it never tried");

    // Work outstanding, not documents seen: what is already derived is not counted.
    assert_eq!(left_behind(false, &[(true, false), (false, false), (false, false)]), 2);
    assert_eq!(left_behind(false, &[(false, true)]), 0);
    assert_eq!(left_behind(true, &[(true, false), (false, true)]), 2);
}

#[test]
fn a_partly_scanned_document_warns_of_its_pages() {
    let mut r = ExtractReport::new(vec!["tampa".into()]);
    let o = Outcome::Partial {
        text: "Minutes".into(),
        title: Some("Minutes of the Board".into()),
        tool: "pdf-inspector".into(),
        version: "0.1".into(),
        pages_needing_ocr: 3,
    };
    let item = r.record("https://tampa.gov/m.pdf", "pdf", 5000, &o, true, &clean_read(7), 5, 2);
    assert_eq!(item.verdict, Verdict::Warn);
    assert_eq!(item.detail.as_deref(), Some("3 pages need OCR"));
    assert_eq!(r.needs_ocr, 1);
    assert_eq!(r.ocr_pages_pending, 3);
    assert_eq!(r.extracted, 1);
    assert_eq!(r.recovered_by_fallback, 1);
    assert_eq!(r.sample[0].title.as_deref(), Some("Minutes of the Board"));

    let one = Outcome::Partial { text: "x".into(), title: None, tool: "t".into(), version: "1".into(), pages_needing_ocr: 1 };
    let item = r.record("https://tampa.gov/n.pdf", "pdf", 10, &one, false, &clean_read(1), 5, 2);
    assert_eq!(item.detail.as_deref(), Some("1 page need OCR"));
}

#[test]
fn the_named_lists_stop_at_their_caps() {
    let mut r = ExtractReport::new(vec!["tampa".into()]);
    for i in 0..25 {
        r.record(&format!("https://tampa.gov/{i}.ogg"), "audio", 1, &audio(), false, &clean_read(0), 5, 0);
    }
    assert_eq!(r.unextractable, 25);
    assert_eq!(r.unreadable.len(), 20);
    let poor = ReadQuality { chars: 1, per_kb: 0, link_percent: 0, poor: true, findings: vec!["shell".into()] };
    for i in 0..7 {
        r.record(&format!("https://tampa.gov/{i}"), "html", 1, &text("x", "readability"), false, &poor, 2, 0);
    }
    assert_eq!(r.poor_reads, 7);
    assert_eq!(r.poor.len(), 5);
    assert_eq!(r.sample.len(), 2);
    assert_eq!(r.attempted, r.extracted + r.unextractable);
}

#[test]
fn a_preview_is_the_first_characters_on_one_line() {
    assert_eq!(preview("a\nb"), "a b");
    let long: String = "x".repeat(200);
    assert_eq!(preview(&long).chars().count(), 180);
}

#[test]
fn the_kind_filter_passes_only_its_kind() {
    assert!(wants_kind(&None, "pdf"));
    assert!(wants_kind(&Some("pdf".into()), "pdf"));
    assert!(!wants_kind(&Some("html".into()), "pdf"));
}

#[test]
fn the_extract_report_reads_in_order() {
    let mut r = ExtractReport::new(vec!["tampa".into(), "boston".into()]);
    r.observations = 12;
    r.attempted = 3;
    r.extracted = 2;
    r.unextractable = 1;
    r.poor_reads = 2;
    r.chars_of_text = 1234;
    r.left_by_limit = 4;
    let mut tools = Counts::new();
    tools.add("readability", 2);
    r.by_tool = tools;
    r.unreadable.push(Unreadable { url: "https://t/a.ogg".into(), kind: "audio".into(), reason: "no\ntext".into() });
    r.poor.push(PoorRead { url: "https://t/menu".into(), chars: 614, bytes: 2048, findings: vec!["a menu".into()] });
    r.sample.push(ExtractSample {
        url: "https://t/a".into(),
        kind: "html".into(),
        tool: "readability".into(),
        chars: 620,
        title: Some("Agenda".into()),
        preview: "Item one".into(),
    });
    assert_eq!(
        render_to_string(&r),
        "tampa, boston  1,234 of text\n\
         \x20 12 observations · 0 already derived · 0 already unextractable · 3 attempted · 2 extracted · 0 read by the fallback · 0 need OCR · 1 unextractable · 2 read poorly\n\
         \n\
         \x20 ! stopped at the limit; 4 left underived\n\
         \n\
         \x20 by tool\n\
         \x20 2 readability\n\
         \n\
         \x20 unreadable\n\
         \x20 ✗ audio https://t/a.ogg\n\
         \x20   no text\n\
         \n\
         \x20 read poorly\n\
         \x20 ! https://t/menu\n\
         \x20   614 of text from 2.00 KiB\n\
         \x20   a menu\n\
         \x20   … and 1 more. `centinel check <url>` for one of them\n\
         \n\
         \x20 sample\n\
         \x20 Agenda  readability · 620\n\
         \x20   Item one\n"
    );
}

use centinel_core::ops::extract::{filing, Filing};

#[test]
fn an_empty_text_is_filed_as_a_derivation_and_nothing_readable_as_a_verdict() {
    match filing(&Outcome::Text { text: String::new(), title: None, tool: "htmd".into(), version: "0.1".into() }) {
        Filing::Derivation { text, tool, version } => {
            assert_eq!(text, "");
            assert_eq!(tool, "htmd");
            assert_eq!(version, "0.1");
        },
        other => panic!("{other:?}"),
    }
    match filing(&Outcome::Unextractable { reason: "audio".into() }) {
        Filing::Underivable { reason } => assert_eq!(reason, "audio"),
        other => panic!("{other:?}"),
    }
}
