use centinel_core::ops::models::{
    already_checked, digest_problem, human_bytes, orphan_reason, selection_error, size_problem, FetchedFile, FileCheck,
    ModelStatus, ModelsReport, Orphan, VariantStatus,
};
use centinel_core::page::Page;

fn render_to_string(r: &ModelsReport) -> String {
    let mut p = Page::new();
    r.render(&mut p);
    p.to_text()
}

#[test]
fn human_bytes_uses_binary_units() {
    assert_eq!(human_bytes(0), "0 B");
    assert_eq!(human_bytes(1023), "1023 B");
    assert_eq!(human_bytes(1024), "1.00 KiB");
    assert_eq!(human_bytes(613_527_539), "585.11 MiB");
    assert_eq!(human_bytes(1_219_344_796), "1.14 GiB");
}

#[test]
fn the_largest_unit_is_tebibytes() {
    assert_eq!(human_bytes(1u64 << 50), "1024.00 TiB");
    assert_eq!(human_bytes(1536), "1.50 KiB");
}

#[test]
fn a_variant_without_a_model_is_refused() {
    assert!(selection_error(&None, &Some("q8".into())).is_some());
    assert!(selection_error(&Some("qwen3".into()), &Some("q8".into())).is_none());
    assert!(selection_error(&None, &None).is_none());
}

#[test]
fn an_orphan_says_whether_its_repository_is_still_known() {
    assert_eq!(
        orphan_reason("Qwen/Qwen3", true),
        "Qwen/Qwen3 is pinned to a different revision"
    );
    assert_eq!(
        orphan_reason("Qwen/Qwen2", false),
        "Qwen/Qwen2 is no longer in the registry"
    );
}

#[test]
fn a_variant_without_a_model_is_refused_rather_than_guessed() {
    let err = selection_error(&None, &Some("q8_0".into())).unwrap();
    assert!(err.contains("--variant needs a model"), "{err}");
}

#[test]
fn pruning_an_empty_cache_is_a_no_op() {
    let r = ModelsReport::pruned(Vec::new(), false);
    assert!(matches!(r, ModelsReport::Prune { bytes: 0, deleted: false, .. }));
    assert_eq!(render_to_string(&r), "✓ nothing orphaned\n");
}

#[test]
fn prune_previews_by_default_and_says_how_to_delete() {
    let orphans = vec![
        Orphan { path: "/m/a/b/rev1".into(), bytes: 2048, reason: orphan_reason("a/b", true) },
        Orphan { path: "/m/c/d/rev2".into(), bytes: 1024, reason: orphan_reason("c/d", false) },
    ];
    let r = ModelsReport::pruned(orphans, false);
    match &r {
        ModelsReport::Prune { bytes, .. } => assert_eq!(*bytes, 3072),
        other => panic!("{other:?}"),
    }
    assert_eq!(
        render_to_string(&r),
        "would free 3.00 KiB  2 directories\n\
         \x20 /m/a/b/rev1\n\
         \x20   2.00 KiB  a/b is pinned to a different revision\n\
         \x20 /m/c/d/rev2\n\
         \x20   1.00 KiB  c/d is no longer in the registry\n\
         \n\
         \x20 centinel models prune --delete\n"
    );
    let r = ModelsReport::pruned(vec![Orphan { path: "/m/x".into(), bytes: 5, reason: "gone".into() }], true);
    assert!(!render_to_string(&r).contains("--delete"));
}

#[test]
fn verify_reports_a_corrupt_file_without_calling_the_rest_bad() {
    let checked = vec![
        FileCheck::of("bge".into(), "onnx/model.onnx".into(), None),
        FileCheck::of("bge".into(), "tokenizer.json".into(), Some(size_problem(10, 12))),
    ];
    assert!(already_checked(&checked, "bge", "tokenizer.json"));
    assert!(!already_checked(&checked, "whisper", "tokenizer.json"));
    let r = ModelsReport::verified("/m".into(), checked);
    assert!(matches!(r, ModelsReport::Verify { ok: false, .. }));
    assert_eq!(
        render_to_string(&r),
        "1 of 2 failed\n\
         \x20 ✓ bge  model.onnx\n\
         \x20 ! bge  tokenizer.json\n\
         \x20   size 10, expected 12\n"
    );
    let r = ModelsReport::verified("/m".into(), vec![FileCheck::of("bge".into(), "a".into(), None)]);
    assert!(matches!(r, ModelsReport::Verify { ok: true, .. }));
    assert_eq!(render_to_string(&r), "every digest matches\n  ✓ bge  a\n");
    assert_eq!(digest_problem("ab", "cd"), "digest ab, expected cd");
}

#[test]
fn a_pull_says_what_it_fetched_and_what_it_resumed() {
    let fetched = vec![
        FetchedFile { model: "bge".into(), path: "onnx/model.onnx".into(), bytes: 2048, resumed_from: 1024 },
        FetchedFile { model: "bge".into(), path: "tokenizer.json".into(), bytes: 1000, resumed_from: 0 },
    ];
    let r = ModelsReport::pulled("/m".into(), fetched, vec!["config.json".into()], 2000, Vec::new());
    assert_eq!(
        render_to_string(&r),
        "2.98 KiB fetched  2.0s at 1.49 KiB/s\n\
         \x20 ✓ model.onnx  2.00 KiB, resumed from 1.00 KiB\n\
         \x20 ✓ tokenizer.json  1000 B\n\
         \x20 ·  config.json  already present\n"
    );
}

#[test]
fn a_half_pulled_variant_reads_as_resumable() {
    let m = ModelStatus {
        id: "bge-small".into(),
        role: "embedding".into(),
        license: "MIT".into(),
        about: "Small embedder".into(),
        installed: false,
        variants: vec![
            VariantStatus { variant: "q8".into(), installed: false, bytes_present: 512, bytes_total: 2048, is_default: true },
            VariantStatus { variant: "f32".into(), installed: false, bytes_present: 0, bytes_total: 4096, is_default: false },
        ],
        active: None,
    };
    let r = ModelsReport::List { dir: "/m".into(), models: vec![m] };
    assert_eq!(
        render_to_string(&r),
        "0 of 1 installed  0 B\n\
         /m\n\
         \n\
         ! bge-small  embedding · MIT\n\
         \x20   Small embedder\n\
         \x20   ! q8  512 B / 2.00 KiB  default\n\
         \x20     f32  4.00 KiB\n"
    );
}

#[test]
fn removing_says_what_it_freed() {
    let r = ModelsReport::Remove { removed: vec!["/m/a/model.onnx".into()], bytes_freed: 1024 };
    assert_eq!(render_to_string(&r), "1.00 KiB freed\n  /m/a/model.onnx\n");
    assert_eq!(render_to_string(&ModelsReport::Dir { dir: "/m".into() }), "/m\n");
}

use centinel_core::ops::models::{selection, Listed};

/// The models the registry lists, with the quantizations each publishes.
fn registry() -> Vec<Listed> {
    [
        ("qwen3-embedding-4b", "q8_0", &["q8_0", "q4_k_m", "f16"][..]),
        ("qwen3-embedding-0.6b", "q8_0", &["q8_0", "f16"][..]),
        ("qwen3-reranker-0.6b", "q8_0", &["q8_0"][..]),
        ("whisper-large-v3-turbo", "q5_0", &["q5_0", "f16"][..]),
        ("whisper-tiny", "f16", &["f16"][..]),
        ("silero-vad", "v5", &["v5"][..]),
    ]
    .iter()
    .map(|(id, default, variants)| Listed {
        id: id.to_string(),
        default_variant: default.to_string(),
        variants: variants.iter().map(|v| v.to_string()).collect(),
    })
    .collect()
}

#[test]
fn no_model_selects_every_default_variant() {
    let reg = registry();
    let picked = selection(&reg, None, None).unwrap();
    assert_eq!(picked.len(), reg.len());
    for ((id, variant), spec) in picked.iter().zip(&reg) {
        assert_eq!(id, &spec.id);
        assert_eq!(variant, &spec.default_variant);
    }
}

#[test]
fn an_explicit_variant_is_honoured() {
    let picked = selection(&registry(), Some("qwen3-embedding-4b"), Some("q4_k_m")).unwrap();
    assert_eq!(picked.len(), 1);
    assert_eq!(picked[0].1, "q4_k_m");
}

#[test]
fn an_unknown_model_names_the_registry() {
    let err = selection(&registry(), Some("bert"), None).unwrap_err();
    assert!(err.contains("qwen3-embedding-4b"), "{err}");
}

#[test]
fn an_unknown_variant_names_the_ones_there_are() {
    let err = selection(&registry(), Some("qwen3-embedding-4b"), Some("q2")).unwrap_err();
    assert!(err.contains("q4_k_m"), "{err}");
    let err = selection(&registry(), None, Some("q8_0")).unwrap_err();
    assert!(err.contains("--variant needs a model"), "{err}");
}
