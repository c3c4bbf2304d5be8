use base64::Engine;
use centinel_core::ops::download::{default_max_bytes, encode_page, DownloadReport, Found};
use centinel_core::page::Page;

const PDF: &[u8] = b"%PDF-1.7 pretend agenda bytes";
const TEXT: &str = "# Agenda\n\nItem one. Item two.";

fn decode(data: &str) -> Vec<u8> {
    base64::engine::general_purpose::STANDARD
        .decode(data)
        .expect("`data` must always be valid base64")
}

fn sha(stem: &str) -> String {
    stem.repeat(6)[..64].to_string()
}

fn found(derived: Option<String>) -> Found {
    Found {
        url: "https://tampa.gov/agenda.pdf".into(),
        source: "tampa".into(),
        kind: if derived.is_some() { "markdown".into() } else { "pdf".into() },
        blob_sha: sha("3f8a1c9d0b7e"),
        matched_derived: derived,
        filename: "agenda.pdf".into(),
        declared_type: Some("application/pdf".into()),
        observed_at: "2026-08-04T10:00:00Z".into(),
        other_matches: Vec::new(),
    }
}

fn render_to_string(report: &DownloadReport) -> String {
    let mut p = Page::new();
    report.render(&mut p);
    p.to_text()
}

fn report() -> DownloadReport {
    DownloadReport {
        url: "https://tampa.gov/agenda.pdf".into(),
        source: "tampa".into(),
        kind: "pdf".into(),
        blob_sha: sha("3f8a1c9d0b7e"),
        data_sha: sha("3f8a1c9d0b7e"),
        derived: false,
        filename: "agenda.pdf".into(),
        media_type: Some("application/pdf".into()),
        observed_at: "2026-08-04T10:00:00Z".into(),
        encoding: "base64".into(),
        data: base64::engine::general_purpose::STANDARD.encode(PDF),
        bytes: 8,
        total_bytes: 4_100_000,
        offset: 0,
        truncated: true,
        other_matches: Vec::new(),
    }
}

#[test]
fn downloading_returns_the_bytes_as_served() {
    let r = DownloadReport::assemble(found(None), PDF, 0, default_max_bytes());
    assert_eq!(decode(&r.data), PDF, "the bytes must survive the trip");
    assert_eq!(r.kind, "pdf");
    assert_eq!(r.filename, "agenda.pdf");
    assert_eq!(r.encoding, "base64");
    assert_eq!(r.blob_sha, sha("3f8a1c9d0b7e"));
    assert_eq!(r.data_sha, r.blob_sha, "an original download is anchored to itself");
    assert!(!r.derived);
    assert!(!r.truncated);
}

#[test]
fn the_media_type_is_the_served_header_or_absent() {
    let r = DownloadReport::assemble(found(None), PDF, 0, default_max_bytes());
    assert_eq!(r.media_type.as_deref(), Some("application/pdf"));

    let mut bare = found(None);
    bare.declared_type = None;
    let r = DownloadReport::assemble(bare, PDF, 0, default_max_bytes());
    assert_eq!(r.media_type, None, "no header, no claim");
}

#[test]
fn a_derived_hash_downloads_the_derived_text() {
    let derived = sha("9b2e4a1f0c33");
    let r = DownloadReport::assemble(found(Some(derived.clone())), TEXT.as_bytes(), 0, default_max_bytes());
    assert_eq!(decode(&r.data), TEXT.as_bytes());
    assert!(r.derived);
    assert_eq!(r.kind, "markdown");
    assert_eq!(r.data_sha, derived);
    assert_eq!(
        r.blob_sha,
        sha("3f8a1c9d0b7e"),
        "the evidentiary anchor still names the bytes as served"
    );
    assert_eq!(r.media_type, None, "no server ever served derived text");
}

#[test]
fn paging_reassembles_to_the_exact_bytes() {
    let head = DownloadReport::assemble(found(None), PDF, 0, 8);
    assert_eq!(head.bytes, 8);
    assert_eq!(head.total_bytes, PDF.len());
    assert!(head.truncated);

    // 0 means everything, from wherever the caller left off.
    let tail = DownloadReport::assemble(found(None), PDF, 8, 0);
    assert!(!tail.truncated);

    let mut whole = decode(&head.data);
    whole.extend(decode(&tail.data));
    assert_eq!(whole, PDF);
}

#[test]
fn an_offset_past_the_end_is_empty_not_an_error() {
    let r = DownloadReport::assemble(found(None), PDF, PDF.len() + 100, default_max_bytes());
    assert_eq!(r.bytes, 0);
    assert!(!r.truncated);
    assert_eq!(r.offset, PDF.len());
    assert_eq!(r.data, "");
}

#[test]
fn pages_of_three_bytes_encode_to_four_characters_each() {
    let e = encode_page(b"abcdef", 0, 3);
    assert_eq!(e.data, "YWJj");
    assert_eq!(e.bytes, 3);
    assert_eq!(e.offset, 0);
    assert_eq!(e.total_bytes, 6);
    assert!(e.truncated);
    let e = encode_page(b"abcdef", 3, 100);
    assert_eq!(e.data, "ZGVm");
    assert!(!e.truncated);
    let e = encode_page(b"abcd", 0, 0);
    assert_eq!(e.data, "YWJjZA==");
}

#[test]
fn the_default_page_is_thirty_two_kibibytes() {
    assert_eq!(default_max_bytes(), 32_768);
}

#[test]
fn the_render_carries_the_handle_and_never_the_payload() {
    let r = report();
    let out = render_to_string(&r);
    assert!(out.contains("3f8a1c9d0b7e"), "{out}");
    assert!(out.contains("agenda.pdf"), "{out}");
    assert!(out.contains("--offset 8"), "{out}");
    assert!(!out.contains(&r.data), "base64 is for the wire, not the terminal");
}

#[test]
fn an_untruncated_download_offers_no_paging() {
    let mut r = report();
    r.truncated = false;
    assert!(!render_to_string(&r).contains("--offset"));
}

#[test]
fn the_download_report_reads_in_order() {
    let mut r = report();
    r.other_matches = vec!["https://tampa.gov/a2.pdf".into(), "https://tampa.gov/a3.pdf".into()];
    assert_eq!(
        render_to_string(&r),
        "https://tampa.gov/agenda.pdf\n\
         3f8a1c9d0b7e · tampa · pdf · application/pdf · 2026-08-04T10:00:00Z\n\
         ! 2 other addresses matched; this is the first\n\
         \n\
         agenda.pdf · 3.91 MiB · base64 in `data`\n\
         \n\
         0–8 of 4,100,000 bytes\n\
         --offset 8\n\
         \n\
         on this machine: centinel open 3f8a1c9d0b7e --print-path\n"
    );
}

#[test]
fn every_byte_value_survives_the_encoding_in_any_page_size() {
    let whole: Vec<u8> = (0..=255u8).collect();
    for max in [1usize, 2, 3, 4, 7, 100] {
        let mut back = Vec::new();
        let mut offset = 0;
        loop {
            let e = encode_page(&whole, offset, max);
            back.extend(base64::engine::general_purpose::STANDARD.decode(e.data.as_bytes()).unwrap());
            offset = e.offset + e.bytes;
            if !e.truncated {
                break;
            }
        }
        assert_eq!(back, whole);
    }
    assert_eq!(encode_page(b"Man", 0, 0).data, "TWFu");
    assert_eq!(encode_page(b"M", 0, 0).data, "TQ==");
}

#[test]
fn a_derived_blob_is_markdown_whatever_the_original_was() {
    let mut f = found(Some(sha("9e1d2c3b4a5f")));
    f.kind = "pdf".into();
    let r = DownloadReport::assemble(f, b"# text", 0, 0);
    assert_eq!(r.kind, "markdown");
    assert_eq!(r.media_type, None);
    let r = DownloadReport::assemble(found(None), b"%PDF", 0, 0);
    assert_eq!(r.kind, "pdf");
}
