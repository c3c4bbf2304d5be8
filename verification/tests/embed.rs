use centinel_core::ops::embed::{
    default_model, plan_work, resolve_batch, resolve_remote_batch, variant_for, windows, zero_batch, BatchError,
    BatchSize, EmbedArgs, EmbedReport, Skipped, AUTO, DEFAULT_BATCH, REMOTE_DEFAULT_BATCH,
};
use centinel_core::page::Page;

/// The two spellings, and the three ways of writing neither.
#[test]
fn a_batch_size_is_a_count_or_the_word_auto() {
    assert_eq!(BatchSize::parse(AUTO), Ok(BatchSize::Auto));
    assert_eq!(BatchSize::parse("AUTO"), Ok(BatchSize::Auto));
    assert_eq!(BatchSize::parse("64"), Ok(BatchSize::Fixed(64)));
    assert!(BatchSize::parse("0").is_err(), "0 embeds nothing");
    assert!(BatchSize::parse("-8").is_err());
    assert!(BatchSize::parse("lots").is_err());
}

#[test]
fn a_refusal_says_which_refusal_it_is() {
    assert_eq!(BatchSize::parse("0"), Err(BatchError::Zero));
    assert_eq!(BatchSize::parse("lots"), Err(BatchError::NotACount));
    assert_eq!(
        BatchError::NotACount.message("lots"),
        "expected a count of chunks or `auto`, got `lots`"
    );
    assert!(BatchError::Zero.message("0").contains("embeds nothing"));
    assert_eq!(BatchSize::parse("+7"), Ok(BatchSize::Fixed(7)));
    assert_eq!(BatchSize::parse("AuTo"), Ok(BatchSize::Auto));
}

/// The flag, else the config, else what the machine affords.
#[test]
fn the_flag_beats_the_config_and_auto_asks_the_machine() {
    assert_eq!(resolve_batch(Some(BatchSize::Fixed(8)), BatchSize::Fixed(64), Some(512)), 8);
    assert_eq!(resolve_batch(None, BatchSize::Fixed(64), Some(512)), 64);
    assert_eq!(resolve_batch(None, BatchSize::Auto, Some(512)), 512);
    assert_eq!(resolve_batch(Some(BatchSize::Auto), BatchSize::Fixed(64), None), DEFAULT_BATCH);
    assert_eq!(resolve_remote_batch(None, BatchSize::Auto), REMOTE_DEFAULT_BATCH);
    assert_eq!(resolve_remote_batch(Some(BatchSize::Fixed(9)), BatchSize::Auto), 9);
}

#[test]
fn unset_is_not_zero_and_zero_is_caught() {
    let args = EmbedArgs::default();
    assert_eq!(args.model, "qwen3-embedding-4b");
    assert_eq!(default_model(), "qwen3-embedding-4b");
    assert!(args.batch.is_none());
    assert!(!zero_batch(args.batch));
    assert!(zero_batch(Some(BatchSize::Fixed(0))));
}

#[test]
fn stored_chunks_are_subtracted_from_the_work_list() {
    let indexed: Vec<String> = ["a", "b", "c", "d"].iter().map(|s| s.to_string()).collect();
    let stored: Vec<String> = ["c", "a", "z"].iter().map(|s| s.to_string()).collect();
    let w = plan_work(&indexed, &stored, None);
    assert_eq!(w.todo, ["b", "d"]);
    assert_eq!((w.already_embedded, w.outstanding), (2, 2));

    let w = plan_work(&indexed, &stored, Some(1));
    assert_eq!(w.todo, ["b"]);
    assert_eq!(w.outstanding, 2, "the limit cuts the work, not the count");
}

#[test]
fn a_remote_model_has_no_variant_to_record() {
    assert_eq!(variant_for(true, "qwen3-embedding", &None, "q8").unwrap(), "openrouter");
    assert_eq!(
        variant_for(true, "qwen3-embedding", &Some("q4".into()), "q8").unwrap_err(),
        "`qwen3-embedding` runs remotely and has no quantization variant — drop --variant"
    );
    assert_eq!(variant_for(false, "bge", &None, "q8").unwrap(), "q8");
    assert_eq!(variant_for(false, "bge", &Some("f16".into()), "q8").unwrap(), "f16");
}

#[test]
fn the_work_list_goes_out_in_windows_of_the_batch() {
    let todo: Vec<String> = (0..5).map(|i| format!("h{i}")).collect();
    let w = windows(&todo, 2);
    assert_eq!(w, vec![vec!["h0".to_string(), "h1".to_string()], vec!["h2".to_string(), "h3".to_string()], vec!["h4".to_string()]]);
    assert!(windows(&Vec::new(), 3).is_empty());
    assert_eq!(windows(&todo, 8).len(), 1);
}

#[test]
fn a_run_reports_its_rate_and_what_is_left() {
    let indexed: Vec<String> = (0..10).map(|i| format!("c{i}")).collect();
    let stored: Vec<String> = vec!["c0".into(), "c1".into()];
    let work = plan_work(&indexed, &stored, Some(4));
    let base = EmbedReport::planned("bge-small".into(), "q8".into(), 384, "/s/vectors.lance".into(), 10, &work);
    assert_eq!(base.remaining, 8);
    assert_eq!(base.embedded, 0);
    let r = base.finished(
        4,
        vec![Skipped { chunk_hash: "0123456789abcdef".into(), reason: "too\nlong".into() }],
        32,
        2000,
    );
    assert_eq!(r.remaining, 4);
    let mut p = Page::new();
    r.render(&mut p);
    assert_eq!(
        p.to_text(),
        "bge-small  q8 · 384 dims\n\
         \x20 10 chunks indexed · 2 already embedded · 4 embedded · 4 remaining\n\
         \n\
         \x20 2.0s at 2.0 chunks/sec · 32 per pass\n\
         \x20 ! about 2.0s left — re-run to continue\n\
         \n\
         \x20 skipped\n\
         \x20 ! 0123456789ab  too long\n"
    );
}

use centinel_core::ops::embed::{batch_refusal, dims_agree, local_dims};

#[test]
fn a_batch_of_nothing_is_refused() {
    assert_eq!(batch_refusal(Some(BatchSize::Fixed(0))).err().unwrap(), "--batch must be at least 1");
    assert!(batch_refusal(Some(BatchSize::Fixed(8))).is_ok());
    assert!(batch_refusal(Some(BatchSize::Auto)).is_ok());
    assert!(batch_refusal(None).is_ok());
}

#[test]
fn a_model_without_dimensions_is_not_an_embedding_model() {
    assert_eq!(local_dims("whisper-tiny", None).err().unwrap(), "`whisper-tiny` is not an embedding model");
    assert_eq!(local_dims("qwen3-embedding-4b", Some(2560)).unwrap(), 2560);
}

#[test]
fn a_loaded_model_must_match_the_pinned_dimensions() {
    assert!(dims_agree("m", 1024, 1024).is_ok());
    assert_eq!(dims_agree("m", 768, 1024).err().unwrap(), "m reports 768 dimensions, the registry pins 1024");
}

use centinel_core::ops::embed::{embeds_now, settle_model, Backend};

fn local(dims: Option<usize>) -> Backend {
    Backend::Local { id: "qwen3-embedding-4b".into(), dims, default_variant: "q8_0".into() }
}

#[test]
fn a_zero_batch_is_refused_before_the_model_is_looked_at() {
    let args = EmbedArgs { batch: Some(BatchSize::Fixed(0)), ..EmbedArgs::default() };
    assert_eq!(settle_model(&args, &local(None)).err().unwrap(), "--batch must be at least 1");
}

#[test]
fn a_local_model_settles_its_dimensions_and_variant() {
    let args = EmbedArgs { model: "whisper-tiny".into(), ..EmbedArgs::default() };
    assert_eq!(settle_model(&args, &local(None)).err().unwrap(), "`whisper-tiny` is not an embedding model");
    let s = settle_model(&EmbedArgs::default(), &local(Some(2560))).unwrap();
    assert_eq!((s.model.as_str(), s.dims, s.variant.as_str()), ("qwen3-embedding-4b", 2560, "q8_0"));
    let args = EmbedArgs { variant: Some("f16".into()), ..EmbedArgs::default() };
    assert_eq!(settle_model(&args, &local(Some(2560))).unwrap().variant, "f16");
}

#[test]
fn a_remote_model_takes_no_variant() {
    let remote = Backend::Remote { id: "qwen/qwen3-embedding-8b".into(), width: 4096 };
    let s = settle_model(&EmbedArgs::default(), &remote).unwrap();
    assert_eq!((s.dims, s.variant.as_str()), (4096, "openrouter"));
    let args = EmbedArgs { variant: Some("q8_0".into()), ..EmbedArgs::default() };
    assert!(settle_model(&args, &remote).err().unwrap().contains("drop --variant"));
}

#[test]
fn a_dry_run_or_an_empty_work_list_embeds_nothing() {
    let dry = EmbedArgs { dry_run: true, ..EmbedArgs::default() };
    assert!(!embeds_now(&dry, 10));
    assert!(!embeds_now(&EmbedArgs::default(), 0));
    assert!(embeds_now(&EmbedArgs::default(), 1));
}
