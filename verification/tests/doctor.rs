use centinel_core::ops::doctor::{
    binaries_ready, gate_statuses, short_version, sort_binaries, Binary, DoctorArgs, DoctorReport,
    Gate, ModelRole, Need, Weights,
};
use centinel_core::page::Page;

fn binary(name: &str, need: Need, found: bool, version: Option<&str>) -> Binary {
    Binary {
        name: name.into(),
        need,
        purpose: "does a thing".into(),
        path: if found { Some(format!("/usr/bin/{name}")) } else { None },
        version: version.map(str::to_string),
        stale: None,
    }
}

fn model(id: &str, role: ModelRole, installed: bool) -> Weights {
    Weights {
        id: id.into(),
        role,
        gates: role.gates(),
        purpose: role.purpose().into(),
        required: true,
        installed,
        variant: if installed { Some("q8_0".into()) } else { None },
        bytes_present: if installed { 1024 } else { 0 },
        bytes_total: 1024,
        resumable: false,
        fix: if installed { None } else { Some(format!("centinel models pull {id}")) },
    }
}

fn registry(installed: &[&str]) -> Vec<Weights> {
    [
        ("qwen3-embedding-4b", ModelRole::Embedding),
        ("qwen3-embedding-0.6b", ModelRole::Embedding),
        ("qwen3-reranker-0.6b", ModelRole::Reranker),
        ("whisper-large-v3-turbo", ModelRole::Transcription),
        ("whisper-tiny", ModelRole::Transcription),
        ("silero-vad", ModelRole::VoiceActivity),
    ]
    .iter()
    .map(|(id, role)| model(id, *role, installed.contains(id)))
    .collect()
}

/// A machine able to do everything this code does is not told it is broken.
#[test]
fn a_binary_nothing_calls_yet_does_not_block_readiness() {
    let binaries = vec![
        binary("pdftoppm", Need::Planned, false, None),
        binary("tesseract", Need::Planned, false, None),
        binary("yt-dlp", Need::Required, true, Some("2026.07.04")),
        binary("ffmpeg", Need::Required, true, Some("7.1.1")),
    ];
    assert!(binaries_ready(&binaries));
}

#[test]
fn a_binary_that_is_called_and_absent_still_blocks_it() {
    let binaries = vec![
        binary("pdftoppm", Need::Planned, false, None),
        binary("yt-dlp", Need::Required, false, None),
    ];
    assert!(!binaries_ready(&binaries));
}

/// The rows that can stop a run lead the table.
#[test]
fn required_binaries_sort_above_planned_ones() {
    let binaries = vec![
        binary("pdftoppm", Need::Planned, false, None),
        binary("yt-dlp", Need::Required, true, None),
    ];
    let binaries = sort_binaries(binaries);
    assert_eq!(binaries[0].name, "yt-dlp");
}

#[test]
fn rows_sort_by_need_then_name() {
    let binaries = vec![
        binary("tesseract", Need::Planned, false, None),
        binary("yt-dlp", Need::Required, true, None),
        binary("jq", Need::Optional, true, None),
        binary("ffmpeg", Need::Required, true, None),
        binary("pdftoppm", Need::Planned, false, None),
    ];
    let names: Vec<String> = sort_binaries(binaries).into_iter().map(|b| b.name).collect();
    assert_eq!(names, ["ffmpeg", "yt-dlp", "jq", "pdftoppm", "tesseract"]);
}

/// The two stages fail for different people and must fail independently.
#[test]
fn the_gates_open_independently() {
    let gates = gate_statuses(&registry(&[]));
    assert_eq!(gates[0].gate, Gate::Search);
    assert!(!gates[0].ready);
    assert!(!gates[1].ready);

    let gates = gate_statuses(&registry(&["qwen3-embedding-4b", "qwen3-reranker-0.6b"]));
    assert!(gates[0].ready, "still missing: {:?}", gates[0].missing);
    assert_eq!(gates[0].fix, None);
    assert!(!gates[1].ready, "no whisper weights were installed");
    assert!(gates[1].blocks.contains("transcribe"));
}

/// An alternate satisfies its role.
#[test]
fn any_one_model_of_a_role_opens_its_gate() {
    let gates = gate_statuses(&registry(&["whisper-tiny", "silero-vad"]));
    assert!(gates[1].ready, "an alternate must satisfy its role: {:?}", gates[1].missing);
}

/// A gap has to be fixable by pasting.
#[test]
fn a_shut_gate_names_the_preferred_model_and_a_runnable_command() {
    let gates = gate_statuses(&registry(&[]));
    let g = &gates[1];
    assert_eq!(g.missing, vec!["whisper-large-v3-turbo", "silero-vad"]);
    assert_eq!(
        g.fix.as_deref(),
        Some("centinel models pull whisper-large-v3-turbo && centinel models pull silero-vad")
    );
}

#[test]
fn the_report_separates_binary_readiness_from_model_readiness() {
    let report = DoctorReport::assemble(
        "/tmp/store".into(),
        0,
        vec![],
        vec![binary("yt-dlp", Need::Required, true, Some("2026.07.04"))],
        "/tmp/models".into(),
        registry(&[]),
    );
    assert!(report.binaries_ready);
    assert!(!report.models_ready);
    assert_eq!(report.ready, report.binaries_ready && report.models_ready);
    assert!(!DoctorArgs::default().skip_blob_count);
}

/// A stale binary is present and working; the warning is shown under the table.
#[test]
fn a_stale_binary_reads_as_a_warning_not_a_fault() {
    let mut bin = binary("yt-dlp", Need::Required, true, Some("2019.01.01"));
    bin.stale = Some("released 2000 days ago; yt-dlp warns past 90 and breakage is expected".into());
    assert!(bin.found(), "it is installed and it works");
    let report = DoctorReport::assemble(
        "/tmp/store".into(),
        0,
        vec![],
        vec![bin],
        "/tmp/models".into(),
        vec![],
    );
    let mut p = Page::new();
    report.render(&mut p);
    let out = p.to_text();
    assert!(out.contains("ready"), "{out}");
    assert!(out.contains("days ago"), "the warning is shown: {out}");
    assert!(out.starts_with("partly ready") || out.starts_with("ready"), "{out}");
}

#[test]
fn the_doctor_report_reads_in_order() {
    let mut models = registry(&["qwen3-embedding-4b", "qwen3-reranker-0.6b"]);
    models.truncate(3);
    models[1].resumable = true;
    models[1].bytes_present = 512;
    let report = DoctorReport::assemble(
        "/tmp/store".into(),
        1,
        vec!["tampa".into(), "pinellas".into()],
        vec![
            binary("pdftoppm", Need::Planned, false, None),
            binary("ffmpeg", Need::Required, false, None),
        ],
        "/tmp/models".into(),
        models,
    );
    let mut p = Page::new();
    report.render(&mut p);
    assert_eq!(
        p.to_text(),
        "not ready  /tmp/store · 1 blob · 2 sources\n\
         \n\
         binaries\n  \
         ✗ ffmpeg  missing  does a thing\n    \
         pdftoppm  not needed yet  does a thing\n\
         \n\
         models\n  \
         ✓ qwen3-embedding-4b  q8_0  1.00 KiB  search\n  \
         ! qwen3-embedding-0.6b    512 B / 1.00 KiB  search\n  \
         ✓ qwen3-reranker-0.6b  q8_0  1.00 KiB  search\n\
         \n\
         gates\n  \
         ✓ search\n  \
         ! transcription   blocks `centinel transcribe`\n"
    );
}

#[test]
fn a_banner_reads_as_its_version() {
    assert_eq!(short_version("ffmpeg version 7.1.1, Copyright (c) 2000-2025"), "7.1.1");
    assert_eq!(short_version("2026.07.04\nmore"), "2026.07.04");
    assert_eq!(short_version("pdftoppm version 24.02.0"), "24.02.0");
    assert_eq!(short_version("nightly"), "nightly");
    assert_eq!(
        short_version("a banner with no version in it at all"),
        "a banner with no versio…"
    );
}

/// yt-dlp warns past ninety days, and a run failing against the bot wall should say so.
#[test]
fn an_old_yt_dlp_is_named_stale_and_nothing_else_ages() {
    assert_eq!(
        centinel_core::ops::doctor::staleness("yt-dlp", Some(120)).as_deref(),
        Some("released 120 days ago; yt-dlp warns past 90 and breakage is expected")
    );
    assert_eq!(centinel_core::ops::doctor::staleness("yt-dlp", Some(90)), None);
    assert_eq!(centinel_core::ops::doctor::staleness("yt-dlp", None), None);
    assert_eq!(centinel_core::ops::doctor::staleness("ffmpeg", Some(900)), None);
}

/// A role with no model at all is not filled, so its gate stays shut.
#[test]
fn a_role_with_no_model_keeps_its_gate_shut() {
    let models: Vec<Weights> = registry(&["qwen3-embedding-4b", "whisper-tiny", "silero-vad"])
        .into_iter()
        .filter(|m| m.role != ModelRole::Reranker)
        .collect();
    let gates = gate_statuses(&models);
    assert!(!gates[0].ready, "no reranker at all, so search cannot open");
    assert!(gates[0].missing.is_empty(), "nothing in the registry to pull for it");
    assert!(gates[1].ready);
}
