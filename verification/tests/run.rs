use centinel_core::counts::Counts;
use centinel_core::domain::SourceKind;
use centinel_core::ops::build_index::IndexReport;
use centinel_core::ops::extract::ExtractReport;
use centinel_core::ops::run::{
    acquisition_skip, collect_summary, collect_tally, derivation_skip, derive_stages, discover_summary,
    discover_tally, duration, embed_summary, embed_tally, extract_summary, extract_tally, index_summary, index_tally,
    targets_of, total_steps, transcribe_summary, transcribe_tally, Collected, Fold, RunArgs, RunReport, SourceRun,
    Stage, StageRun, StageStatus, Tally,
};
use centinel_core::page::Page;

fn stage_ran(stage: Stage, new: u64) -> StageRun {
    StageRun::ran(stage, Tally::of(new, &[("x", new)]), "summary", 1000)
}

fn source_run(id: &str, stages: Vec<StageRun>) -> SourceRun {
    SourceRun {
        source: id.into(),
        kind: SourceKind::Site,
        target: "https://x.gov".into(),
        stages,
        elapsed_millis: 1000,
    }
}

fn report(sources: Vec<SourceRun>, derive: Vec<StageRun>) -> RunReport {
    let new_documents = sources.iter().map(|s| s.new_documents()).sum();
    let new_chunks = derive.iter().filter(|s| s.stage == Stage::Embed).map(|s| s.new).sum();
    let failed_stages = sources
        .iter()
        .flat_map(|s| s.stages.iter())
        .chain(derive.iter())
        .filter(|s| s.is_failure())
        .count() as u64;
    RunReport {
        config: Some("centinel.toml".into()),
        new_documents,
        new_chunks,
        sources,
        derive,
        failed_stages,
        elapsed_millis: 12_000,
        dry_run: false,
    }
}

fn render_to_string(report: &RunReport) -> String {
    let mut p = Page::new();
    report.render(&mut p);
    p.to_text()
}

/// One target's outcome, as the driver would hand it over.
fn fold(stage: Stage, outcomes: Vec<(Option<&str>, Result<Tally, &str>)>) -> StageRun {
    let answers: Vec<Answer> = outcomes
        .into_iter()
        .map(|(target, outcome)| match outcome {
            Ok(t) => Answer::Worked(t),
            Err(e) => Answer::Broke { target: target.map(str::to_string), error: e.to_string() },
        })
        .collect();
    let f = Fold::all(&answers);
    let summary = format!("{} documents", f.tally.new);
    f.finish(stage, &summary, 10)
}

/// The whole point of a scheduled run: a second one says so in one word.
#[test]
fn a_run_that_found_nothing_is_quiet() {
    let r = report(
        vec![source_run(
            "tampa",
            vec![stage_ran(Stage::Discover, 0), stage_ran(Stage::Collect, 0)],
        )],
        vec![stage_ran(Stage::Extract, 0), stage_ran(Stage::Embed, 0)],
    );
    assert!(r.is_quiet());
    assert!(render_to_string(&r).contains("nothing new"));
}

#[test]
fn new_documents_counts_collection_not_every_stage() {
    let r = report(
        vec![source_run(
            "tampa",
            vec![stage_ran(Stage::Discover, 40), stage_ran(Stage::Collect, 12)],
        )],
        vec![stage_ran(Stage::Extract, 15), stage_ran(Stage::Embed, 400)],
    );
    assert_eq!(r.new_documents, 12);
    assert_eq!(r.new_chunks, 400);
    assert!(!r.is_quiet());

    let out = render_to_string(&r);
    assert!(out.contains("12 new documents"), "{out}");
    assert!(out.contains("400 embedded"), "{out}");
}

#[test]
fn a_failed_stage_is_counted_and_shown() {
    let r = report(
        vec![source_run(
            "pinellas",
            vec![
                StageRun::failed(Stage::Discover, "HTTP 403 from robots.txt", 2000),
                StageRun::skipped(Stage::Collect, "discover failed"),
            ],
        )],
        vec![],
    );
    assert_eq!(r.failed_stages, 1);
    assert!(!r.is_quiet());

    let out = render_to_string(&r);
    assert!(out.contains("403"), "{out}");
    assert!(out.contains("discover failed"), "{out}");
    assert!(out.contains("1 stage failed"), "{out}");
}

/// A run that fetched nothing but cleared an extraction backlog is not quiet.
#[test]
fn work_done_without_collection_still_reads_as_work() {
    let r = report(
        vec![source_run("tampa", vec![stage_ran(Stage::Collect, 0)])],
        vec![stage_ran(Stage::Extract, 500)],
    );
    assert_eq!(r.new_documents, 0);
    assert!(!r.is_quiet());
    assert_eq!(r.newly_derived(), 500);

    let out = render_to_string(&r);
    assert!(out.contains("500 documents derived"), "{out}");
    assert!(!out.contains("nothing new"), "{out}");
}

/// A skipped stage must not read as a broken one.
#[test]
fn skipping_is_not_failing() {
    let skipped = StageRun::skipped(Stage::Embed, "--skip");
    assert!(!skipped.is_failure());

    let r = report(vec![source_run("tampa", vec![stage_ran(Stage::Collect, 0)])], vec![skipped]);
    assert_eq!(r.failed_stages, 0);
    assert!(render_to_string(&r).contains("skipped"));
}

#[test]
fn an_empty_config_points_at_the_command_that_fixes_it() {
    let r = report(vec![], vec![]);
    let out = render_to_string(&r);
    assert!(out.contains("No sources configured"), "{out}");
    assert!(out.contains("centinel source add"), "{out}");
}

#[test]
fn a_dry_run_says_it_fetched_nothing() {
    let mut r = report(
        vec![source_run(
            "tampa",
            vec![
                StageRun::skipped(Stage::Discover, "--dry-run"),
                StageRun::skipped(Stage::Collect, "--dry-run"),
            ],
        )],
        vec![],
    );
    r.dry_run = true;
    assert!(render_to_string(&r).contains("dry run"));
}

/// A target that fails does not abandon the ones behind it.
#[test]
fn one_target_failing_does_not_abandon_the_rest() {
    let run = fold(
        Stage::Extract,
        vec![
            (Some("a"), Err("disk full")),
            (Some("b"), Ok(Tally::of(5, &[("chars_of_text", 100)]))),
            (Some("c"), Ok(Tally::of(5, &[("chars_of_text", 100)]))),
        ],
    );
    assert!(run.is_failure());
    // `b` and `c` worked, and what they did survives the report.
    assert_eq!(run.new, 10);
    assert_eq!(run.figures.get("chars_of_text"), Some(200));
    assert!(run.summary.contains("1 of 3 failed"), "{}", run.summary);
    assert!(run.summary.contains("a: disk full"), "{}", run.summary);
}

/// A standing total folded from every source is reported once, not summed.
#[test]
fn a_standing_total_is_not_summed_across_sources() {
    let one = || Tally::of(1, &[("chunks_written", 30)]).total("total_chunks", 900);
    let run = fold(Stage::Index, vec![(Some("a"), Ok(one())), (Some("b"), Ok(one()))]);
    assert!(!run.is_failure());
    assert_eq!(run.new, 2);
    assert_eq!(run.figures.get("chunks_written"), Some(60));
    assert_eq!(run.figures.get("total_chunks"), Some(900));
    assert_eq!(run.summary, "2 documents");
}

/// The ratio has to survive to the screen.
#[test]
fn the_terminal_says_how_many_failed_not_just_the_first_error() {
    let run = fold(
        Stage::Extract,
        vec![
            (Some("a"), Err("disk full")),
            (Some("b"), Ok(Tally::of(5, &[("chars_of_text", 100)]))),
        ],
    );
    let out = render_to_string(&report(
        vec![source_run("tampa", vec![stage_ran(Stage::Collect, 0)])],
        vec![run],
    ));
    assert!(out.contains("1 of 2 failed"), "{out}");
    assert!(out.contains("a: disk full"), "{out}");
}

/// When everything failed there is no ratio worth printing — the error is the report.
#[test]
fn a_stage_that_failed_everywhere_just_says_why() {
    let run = fold(Stage::Extract, vec![(None, Err("no index"))]);
    assert!(run.is_failure());
    assert_eq!(run.summary, "no index");
    assert_eq!(run.new, 0);
    assert!(run.figures.is_empty());
    assert!(matches!(run.status, StageStatus::Failed { ref error } if error == "no index"));
}

#[test]
fn stage_names_match_the_ops_they_call() {
    let names: Vec<&str> = [
        Stage::Discover,
        Stage::Collect,
        Stage::Extract,
        Stage::Transcribe,
        Stage::Index,
        Stage::Embed,
    ]
    .iter()
    .map(|s| s.name())
    .collect();
    assert_eq!(names, ["discover", "collect", "extract", "transcribe", "index", "embed"]);
}

#[test]
fn counts_add_and_figures_prefer_totals() {
    let mut t = Tally::of(2, &[("a", 1), ("b", 2)]);
    let extra = Counts::from_pairs(&[("c", 7)]);
    t = t.and(&extra);
    t.absorb(&Tally::of(3, &[("a", 10)]).total("b", 99));
    assert_eq!(t.new, 5);
    assert_eq!(t.get("a"), 11);
    assert_eq!(t.get("c"), 7);
    assert_eq!(t.get("zzz"), 0);
    let f = t.into_figures();
    assert_eq!(f.get("b"), Some(99));
    assert_eq!(f.get("a"), Some(11));
}

#[test]
fn a_quiet_run_reads_as_one_block() {
    let r = report(
        vec![source_run("tampa", vec![stage_ran(Stage::Collect, 0)])],
        vec![StageRun::skipped(Stage::Embed, "--skip")],
    );
    assert_eq!(
        render_to_string(&r),
        "nothing new  1 source · 12.0s\n  \
         ✓ tampa                 site      1.0s\n    \
         collect    summary\n\
         \n  \
         \u{20}\u{20}embed      skipped — --skip\n"
    );
    assert_eq!(duration(75_000), "1m 15s");
    assert_eq!(duration(7_260_000), "2h 1m");
    assert!(RunArgs::default().sources.is_empty());
}

#[test]
fn transcription_runs_only_where_some_source_yields_audio() {
    assert_eq!(derive_stages(false), vec![Stage::Extract, Stage::Index, Stage::Embed]);
    assert_eq!(derive_stages(true), vec![Stage::Extract, Stage::Transcribe, Stage::Index, Stage::Embed]);
    assert_eq!(total_steps(3, 4), 10);
}

#[test]
fn collection_after_a_failed_discovery_is_skipped_and_says_why() {
    let args = RunArgs::default();
    let failed = vec![StageRun::failed(Stage::Discover, "connection reset", 5)];
    assert_eq!(acquisition_skip(Stage::Collect, &args, &failed), Some("discover failed"));
    assert_eq!(acquisition_skip(Stage::Discover, &args, &Vec::new()), None);
    assert_eq!(acquisition_skip(Stage::Collect, &args, &vec![stage_ran(Stage::Discover, 1)]), None);
    let dry = RunArgs { dry_run: true, ..RunArgs::default() };
    assert_eq!(acquisition_skip(Stage::Collect, &dry, &failed), Some("--dry-run"));
    let skip = RunArgs { skip: vec![Stage::Collect], ..RunArgs::default() };
    assert_eq!(acquisition_skip(Stage::Collect, &skip, &failed), Some("--skip"));
    assert_eq!(derivation_skip(Stage::Index, &skip), None);
    assert_eq!(derivation_skip(Stage::Index, &dry), Some("--dry-run"));
}

#[test]
fn an_unscoped_derivation_is_one_call_over_the_store() {
    assert_eq!(targets_of(&Vec::new()), vec![None]);
    assert_eq!(
        targets_of(&vec!["a".to_string(), "b".to_string()]),
        vec![Some("a".to_string()), Some("b".to_string())]
    );
}

#[test]
fn each_stage_reads_its_own_numbers() {
    let mut r = ExtractReport::new(vec!["tampa".into()]);
    r.extracted = 3;
    r.chars_of_text = 12_345;
    r.unextractable = 1;
    let t = extract_tally(&r);
    assert_eq!(t.new, 3);
    assert_eq!(t.get("unextractable"), 1);
    assert_eq!(extract_summary(&t), "3 documents · 12,345 chars");

    let t = transcribe_tally(1, 0, 900);
    assert_eq!(transcribe_summary(&t), "1 recording · 900 chars");

    let ir = IndexReport {
        sources: vec![],
        derivations: 4,
        already_indexed: 0,
        documents_indexed: 4,
        chunks_written: 40,
        chunks_deduplicated: 2,
        total_chunks: 1000,
        total_placements: 1100,
        total_chars: 50_000,
    };
    let t = index_tally(&ir);
    assert_eq!(t.get("total_chunks"), 1000);
    assert_eq!(t.totals.get("total_chunks"), Some(1000));
    assert_eq!(index_summary(&t), "4 documents · 40 chunks");

    let t = embed_tally(250, 10, 5);
    assert_eq!(t.get("already_embedded"), 10);
    assert_eq!(embed_summary(&t, 2000), "250 chunks · 125.0/sec");
    assert_eq!(embed_summary(&embed_tally(1, 0, 0), 3000), "1 chunk · 0.3/sec");
}

#[test]
fn discovery_and_collection_read_as_their_reports_say() {
    let mut figures = Counts::new();
    figures.add("sitemaps", 2);
    let t = discover_tally(1847, 12, 3, &figures);
    assert_eq!(t.new, 12);
    assert_eq!(t.get("found"), 1847);
    assert_eq!(t.get("vanished"), 3);
    assert_eq!(t.get("sitemaps"), 2);
    assert_eq!(discover_summary(1847, 12), "1,847 addresses · 12 new");
    assert_eq!(discover_summary(1, 0), "1 address · 0 new");

    let mut parts = Counts::new();
    parts.add("captions", 4);
    let c = Collected {
        stored: 10,
        changed: 2,
        already_had: 100,
        failed: 3,
        blocked: 3,
        gone: 0,
        errored: 0,
        remaining: 0,
        bytes: 2048,
        parts,
    };
    let t = collect_tally(&c);
    assert_eq!(t.new, 10);
    assert_eq!(t.get("blocked"), 3);
    assert_eq!(t.get("part_captions"), 4);
    assert_eq!(t.get("captions"), 0);
    assert_eq!(collect_summary(&c), "10 acquired · 2 changed · 2.00 KiB · 3 blocked");
}

#[test]
fn every_failed_stage_is_counted_once_wherever_it_ran() {
    let r = report(
        vec![
            source_run("a", vec![StageRun::failed(Stage::Discover, "reset", 1), StageRun::skipped(Stage::Collect, "discover failed")]),
            source_run("b", vec![stage_ran(Stage::Discover, 3), stage_ran(Stage::Collect, 2)]),
        ],
        vec![StageRun::failed(Stage::Extract, "disk full", 1), stage_ran(Stage::Index, 0)],
    );
    assert_eq!(r.count_failures(), 2);
    assert_eq!(r.count_failures(), r.failed_stages);
}

use centinel_core::ops::run::{derivation_summary, dispatch, Answer, Call, Dispatch};

fn scoped(sources: &[&str]) -> Vec<String> {
    sources.iter().map(|s| s.to_string()).collect()
}

#[test]
fn a_derivation_makes_one_call_per_named_source_and_refresh_rebuilds_the_index() {
    let args = RunArgs { refresh: true, limit: Some(5), ..RunArgs::default() };
    match dispatch(Stage::Index, &args, &scoped(&["tampa", "hcso"]), "w", "e", "en", None) {
        Dispatch::Calls(cs) => {
            assert_eq!(cs.len(), 2);
            match &cs[1] {
                Call::Index { source, rebuild } => {
                    assert_eq!(source.as_deref(), Some("hcso"));
                    assert!(*rebuild);
                },
                other => panic!("{other:?}"),
            }
        },
        other => panic!("{other:?}"),
    }
    match dispatch(Stage::Extract, &args, &scoped(&[]), "w", "e", "en", None) {
        Dispatch::Calls(cs) => {
            assert_eq!(cs.len(), 1);
            match &cs[0] {
                Call::Extract { source, limit, refresh } => {
                    assert_eq!(*source, None);
                    assert_eq!(*limit, Some(5));
                    assert!(*refresh);
                },
                other => panic!("{other:?}"),
            }
        },
        other => panic!("{other:?}"),
    }
}

#[test]
fn embedding_runs_once_whatever_the_scope() {
    let args = RunArgs::default();
    match dispatch(Stage::Embed, &args, &scoped(&["tampa", "hcso"]), "w", "qwen3-embedding-4b", "en", None) {
        Dispatch::Calls(cs) => {
            assert_eq!(cs.len(), 1);
            match &cs[0] {
                Call::Embed { model, limit } => {
                    assert_eq!(model, "qwen3-embedding-4b");
                    assert_eq!(*limit, None);
                },
                other => panic!("{other:?}"),
            }
        },
        other => panic!("{other:?}"),
    }
}

#[test]
fn a_missing_model_skips_its_stage_with_the_reason() {
    let args = RunArgs::default();
    match dispatch(Stage::Transcribe, &args, &scoped(&["tampa"]), "w", "e", "en", Some("pull it".into())) {
        Dispatch::Skip(why) => assert_eq!(why, "pull it"),
        other => panic!("{other:?}"),
    }
    match dispatch(Stage::Collect, &args, &scoped(&[]), "w", "e", "en", None) {
        Dispatch::Skip(why) => assert_eq!(why, "not a derivation stage"),
        other => panic!("{other:?}"),
    }
}

#[test]
fn the_run_counts_what_collection_stored_and_embedding_embedded() {
    let mut r = RunReport::started(None, false);
    r.acquired(source_run("tampa", vec![stage_ran(Stage::Discover, 40), stage_ran(Stage::Collect, 7)]));
    r.acquired(source_run("hcso", vec![stage_ran(Stage::Discover, 3), stage_ran(Stage::Collect, 2)]));
    r.derived(stage_ran(Stage::Index, 9));
    r.derived(stage_ran(Stage::Embed, 120));
    r.derived(StageRun::skipped(Stage::Transcribe, "--skip"));
    r.closed(5);
    assert_eq!(r.new_documents, 9);
    assert_eq!(r.new_chunks, 120);
    assert_eq!(r.failed_stages, 0);
    assert_eq!(r.elapsed_millis, 5);
    assert_eq!(r.sources.len(), 2);
    assert_eq!(r.derive.len(), 3);
}

#[test]
fn each_derivation_stage_reads_with_its_own_line() {
    let t = Tally::of(3, &[("chars_of_text", 1200)]);
    assert_eq!(derivation_summary(Stage::Extract, &t, 0), "3 documents · 1,200 chars");
    let t = Tally::of(1, &[("chunks_written", 40)]);
    assert_eq!(derivation_summary(Stage::Index, &t, 0), "1 document · 40 chunks");
    let t = Tally::of(250, &[("embedded", 250)]);
    assert_eq!(derivation_summary(Stage::Embed, &t, 10_000), "250 chunks · 25.0/sec");
}
