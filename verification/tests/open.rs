use centinel_core::ops::open::{
    launch_command, opens_derived, settled, short_sha, system_opener, OpenReport, Platform,
};
use centinel_core::page::Page;

fn render_to_string(report: &OpenReport) -> String {
    let mut p = Page::new();
    report.render(&mut p);
    p.to_text()
}

fn report(derived: bool) -> OpenReport {
    OpenReport {
        url: "https://tampa.gov/a.pdf".into(),
        source: "tampa".into(),
        kind: if derived { "markdown" } else { "pdf" }.into(),
        path: "/store/current/tampa/a.pdf".into(),
        blob_sha: "3f8a1c9d0b7e".repeat(6)[..64].to_string(),
        opened_sha: if derived {
            "9b2e4a1f0c33".repeat(6)[..64].to_string()
        } else {
            "3f8a1c9d0b7e".repeat(6)[..64].to_string()
        },
        bytes: 4096,
        derived,
        opened_with: Some("open -a Preview /store/current/tampa/a.pdf".into()),
        other_matches: Vec::new(),
    }
}

/// Both hashes on screen, because both resolve and they identify different bytes.
#[test]
fn opening_the_extraction_shows_both_hashes_and_the_way_back() {
    let out = render_to_string(&report(true));
    assert!(out.contains("3f8a1c9d0b7e"), "the anchor: {out}");
    assert!(out.contains("9b2e4a1f0c33"), "what was opened: {out}");
    assert!(out.contains("--original"), "{out}");
}

/// One hash when there is only one thing to name.
#[test]
fn opening_the_original_shows_one_hash() {
    let out = render_to_string(&report(false));
    assert!(out.contains("3f8a1c9d0b7e"), "{out}");
    assert!(!out.contains("--original"), "nothing to offer: {out}");
}

#[test]
fn a_printed_path_stands_alone_and_ambiguity_is_owned_up_to() {
    let mut r = report(false);
    r.opened_with = None;
    r.other_matches = vec!["https://tampa.gov/b.pdf".into(), "https://tampa.gov/c.pdf".into()];
    assert_eq!(
        render_to_string(&r),
        "/store/current/tampa/a.pdf\n  \
         3f8a1c9d0b7e · tampa · pdf · 4.00 KiB\n  \
         2 addresses other matched; this is the first\n"
    );
}

#[test]
fn a_short_hash_is_twelve_characters() {
    assert_eq!(short_sha("3f8a1c9d0b7e3f8a"), "3f8a1c9d0b7e");
    assert_eq!(short_sha("abc"), "abc");
}

/// `--original` beats every inference; a caption track opens as its transcript.
#[test]
fn original_wins_over_every_inference() {
    assert!(!opens_derived(false, true, true, true));
    assert!(opens_derived(false, false, false, true));
    assert!(opens_derived(false, false, true, false));
    assert!(opens_derived(true, false, false, false));
    assert!(!opens_derived(false, false, false, false));
    assert!(!settled(false, false, false));
    assert!(settled(false, true, false));
}

#[test]
fn a_template_fills_in_the_path_word_by_word() {
    let (program, args) =
        launch_command("code  --wait {path}", "/tmp/a.md", Platform::Other).unwrap();
    assert_eq!(program, "code");
    assert_eq!(args, ["--wait", "/tmp/a.md"]);

    let (program, args) = launch_command("view{path}x", "/p", Platform::Other).unwrap();
    assert_eq!(program, "view/px");
    assert!(args.is_empty());
}

#[test]
fn system_means_the_platform_handler_and_a_name_is_an_application() {
    let (program, args) = launch_command("system", "/tmp/a.pdf", Platform::Other).unwrap();
    assert_eq!(program, "xdg-open");
    assert_eq!(args, ["/tmp/a.pdf"]);
    let (program, _) = launch_command("", "/tmp/a.pdf", Platform::MacOs).unwrap();
    assert_eq!(program, "open");
    let (program, args) = launch_command("Preview", "/tmp/a.pdf", Platform::MacOs).unwrap();
    assert_eq!(program, "open");
    assert_eq!(args, ["-a", "Preview", "/tmp/a.pdf"]);
    let (program, args) = launch_command("evince", "/tmp/a.pdf", Platform::Other).unwrap();
    assert_eq!(program, "evince");
    assert_eq!(args, ["/tmp/a.pdf"]);
    assert_eq!(system_opener(Platform::Windows), "explorer");
}

use centinel_core::ops::open::opened_blob;

#[test]
fn opening_the_extraction_when_there_is_none_is_refused_with_both_ways_forward() {
    let err = opened_blob("https://tampa.gov/a.pdf", "abc", true, None, None).err().unwrap();
    assert!(err.contains("centinel extract"), "{err}");
    assert!(err.contains("--original"), "{err}");
    assert_eq!(opened_blob("k", "abc", false, None, None).unwrap(), "abc");
    assert_eq!(opened_blob("k", "abc", true, Some("named".into()), Some("latest".into())).unwrap(), "named");
    assert_eq!(opened_blob("k", "abc", true, None, Some("latest".into())).unwrap(), "latest");
}

use centinel_core::ops::open::{launches, opened_kind, opener_of, OpenArgs};

fn open_args(print_path: bool, with: Option<&str>) -> OpenArgs {
    OpenArgs { target: "t".into(), derived: false, original: false, with: with.map(str::to_string), print_path, source: None }
}

#[test]
fn print_path_launches_nothing_and_reports_no_command() {
    let args = open_args(true, None);
    assert!(!launches(&args));
    let r = OpenReport::assemble(
        &args, "u".into(), "s".into(), "pdf".into(), "/p".into(), "b".into(), "d".into(), 3, true,
        Some("open /p".into()), vec![],
    );
    assert_eq!(r.opened_with, None);
    assert_eq!(r.kind, "markdown");
    assert_eq!(opened_kind(false, "pdf"), "pdf");
    assert_eq!(opener_of(&open_args(false, Some("code {path}")), "system"), "code {path}");
    assert_eq!(opener_of(&open_args(false, None), "system"), "system");
}
