use centinel_core::ops::read::{default_max_chars, window, ReadReport};
use centinel_core::page::Page;
use centinel_core::text::lines_of;

const TEXT: &str = "# Agenda\n\nItem one. Item two. Item three.";

fn render_to_string(report: &ReadReport) -> String {
    let mut p = Page::new();
    report.render(&mut p);
    p.to_text()
}

fn report() -> ReadReport {
    ReadReport {
        url: "https://tampa.gov/agenda.pdf".into(),
        source: "tampa".into(),
        kind: "pdf".into(),
        blob_sha: "3f8a1c9d0b7e".repeat(6)[..64].to_string(),
        derived_sha: "9b2e4a1f0c33".repeat(6)[..64].to_string(),
        observed_at: "2026-08-04T10:00:00Z".into(),
        tool: "pdf-inspector 0.1".into(),
        text: TEXT.into(),
        chars: 8,
        total_chars: 41,
        offset: 0,
        truncated: true,
        other_matches: Vec::new(),
    }
}

/// The header leads with the handle, and the footer says how to get the rest.
#[test]
fn the_header_leads_with_a_hash_that_resolves() {
    let out = render_to_string(&report());
    assert!(out.contains("3f8a1c9d0b7e"), "{out}");
    assert!(out.contains("pdf-inspector 0.1"), "{out}");
    assert!(out.contains("--offset 8"), "{out}");
}

/// A complete document needs no paging instructions.
#[test]
fn an_untruncated_read_offers_no_paging() {
    let mut r = report();
    r.truncated = false;
    assert!(!render_to_string(&r).contains("--offset"));
}

#[test]
fn the_read_report_reads_in_order() {
    let mut r = report();
    r.other_matches = vec!["https://tampa.gov/agenda2.pdf".into()];
    assert_eq!(
        render_to_string(&r),
        "https://tampa.gov/agenda.pdf\n\
         3f8a1c9d0b7e · tampa · pdf · pdf-inspector 0.1 · 2026-08-04T10:00:00Z\n\
         ! 1 other address matched; this is the first\n\
         \n\
         # Agenda\n\
         \n\
         Item one. Item two. Item three.\n\
         \n\
         0–8 of 41 characters\n\
         --offset 8\n"
    );
}

/// Paging through a document loses nothing and repeats nothing.
#[test]
fn paging_reports_where_it_stopped() {
    let head = window(TEXT, 0, 8);
    assert_eq!(head.chars, 8);
    assert_eq!(head.total_chars, TEXT.chars().count());
    assert!(head.truncated);

    let tail = window(TEXT, 8, 0);
    assert!(!tail.truncated);
    assert_eq!(format!("{}{}", head.text, tail.text), TEXT);
}

#[test]
fn an_offset_past_the_end_reads_nothing() {
    let w = window(TEXT, 100, 5);
    assert_eq!(w.text, "");
    assert_eq!(w.chars, 0);
    assert!(!w.truncated);
    assert_eq!(default_max_chars(), 20_000);
}

#[test]
fn lines_are_cut_as_str_lines_cuts_them() {
    for s in ["", "a", "a\n", "a\r\nb", "a\n\nb\n", "\n", "x\r", "a\n\r"] {
        let expected: Vec<&str> = s.lines().collect();
        assert_eq!(lines_of(s), expected, "{s:?}");
    }
}

use centinel_core::ops::read::{extraction_or_refusal, Extraction, ReadArgs};

fn extraction() -> Extraction {
    Extraction { to_sha: "d".repeat(64), tool: "pdf-extract".into(), version: "0.7".into() }
}

#[test]
fn a_document_nothing_extracted_is_refused_naming_extract() {
    let err = extraction_or_refusal("https://tampa.gov/a.pdf", None).err().unwrap();
    assert_eq!(err, "no extracted text for https://tampa.gov/a.pdf — run `extract` first");
    assert!(extraction_or_refusal("x", Some(extraction())).is_ok());
}

#[test]
fn an_assembled_read_pages_the_text_and_names_both_halves() {
    let args = ReadArgs { target: "a".into(), max_chars: 5, offset: 2, source: None };
    let r = ReadReport::assemble(
        "https://tampa.gov/a.pdf".into(),
        "tampa".into(),
        "pdf".into(),
        "b".repeat(64),
        "2026-03-01T00:00:00Z".into(),
        extraction(),
        "# Agenda, item one",
        &args,
        vec![],
    );
    assert_eq!(r.text, "Agend");
    assert_eq!(r.chars, 5);
    assert_eq!(r.total_chars, 18);
    assert!(r.truncated);
    assert_eq!(r.tool, "pdf-extract 0.7");
    assert_eq!(r.derived_sha, "d".repeat(64));
    let rest = ReadArgs { target: "a".into(), max_chars: 0, offset: 7, source: None };
    let r2 = ReadReport::assemble(
        "u".into(), "s".into(), "k".into(), "b".into(), "t".into(), extraction(), "# Agenda, item one", &rest, vec![],
    );
    assert_eq!(r2.text, "a, item one");
    assert!(!r2.truncated);
}
