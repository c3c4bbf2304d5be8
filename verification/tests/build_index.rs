use centinel_core::ops::build_index::{
    current_derivations, first_heading, places_of, settle_geometry, ChunkIndex, Derived, IndexArgs, IndexReport,
    Sighting, DEFAULT_OVERLAP_CHARS, DEFAULT_TARGET_CHARS,
};

fn geometry(target: usize, overlap: usize) -> IndexArgs {
    IndexArgs {
        target_chars: target,
        overlap_chars: overlap,
        ..Default::default()
    }
}

/// An index holding one document's chunks at the default geometry.
fn populated() -> ChunkIndex {
    let mut index = ChunkIndex::in_memory();
    index.add_chunks("tampa", 3);
    assert!(index.chunks() > 1);
    index
}

/// The same, under two sources, so clearing one leaves the other's chunks.
fn two_sources() -> ChunkIndex {
    let mut index = populated();
    index.add_chunks("pinellas", 3);
    index
}

#[test]
fn an_empty_index_adopts_whatever_geometry_it_is_given() {
    let mut index = ChunkIndex::in_memory();
    settle_geometry(&mut index, &geometry(800, 100)).unwrap();
    assert_eq!(index.geometry, Some((800, 100)));
}

#[test]
fn the_same_geometry_twice_is_not_a_change() {
    let mut index = populated();
    assert!(settle_geometry(
        &mut index,
        &geometry(DEFAULT_TARGET_CHARS, DEFAULT_OVERLAP_CHARS),
    )
    .is_ok());
    assert!(settle_geometry(
        &mut index,
        &geometry(DEFAULT_TARGET_CHARS, DEFAULT_OVERLAP_CHARS),
    )
    .is_ok());
}

#[test]
fn changing_the_geometry_under_a_populated_index_is_refused() {
    let mut index = populated();
    assert!(settle_geometry(
        &mut index,
        &geometry(DEFAULT_TARGET_CHARS, DEFAULT_OVERLAP_CHARS),
    )
    .is_ok());

    let err = match settle_geometry(&mut index, &geometry(800, 100)) {
        Err(e) => e.message(),
        Ok(()) => panic!("a change under a populated index was accepted"),
    };
    assert!(err.contains("--rebuild"), "{err}");
    assert!(err.contains("orphaned"), "the cost is stated: {err}");
    assert_eq!(
        index.geometry,
        Some((DEFAULT_TARGET_CHARS, DEFAULT_OVERLAP_CHARS)),
        "a refused change must not be recorded"
    );
}

#[test]
fn clearing_the_index_licenses_a_change_of_geometry() {
    let mut index = populated();
    assert!(settle_geometry(
        &mut index,
        &geometry(DEFAULT_TARGET_CHARS, DEFAULT_OVERLAP_CHARS),
    )
    .is_ok());

    index.clear();
    assert!(settle_geometry(&mut index, &geometry(800, 100)).is_ok());
    assert_eq!(index.geometry, Some((800, 100)));
}

#[test]
fn a_scoped_rebuild_that_leaves_chunks_behind_does_not() {
    let mut index = two_sources();
    assert!(settle_geometry(
        &mut index,
        &geometry(DEFAULT_TARGET_CHARS, DEFAULT_OVERLAP_CHARS),
    )
    .is_ok());

    index.clear_source("tampa");
    assert!(index.chunks() > 0, "pinellas is still in there");

    let err = match settle_geometry(&mut index, &geometry(800, 100)) {
        Err(e) => e.message(),
        Ok(()) => panic!("a scoped rebuild licensed a change"),
    };
    assert!(err.contains("--rebuild"), "{err}");
}

#[test]
fn an_index_with_no_recorded_geometry_may_only_assume_the_defaults() {
    let mut index = populated();
    assert_eq!(index.geometry, None);

    let err = match settle_geometry(&mut index, &geometry(800, 100)) {
        Err(e) => e.message(),
        Ok(()) => panic!("an unrecorded index adopted a non-default geometry"),
    };
    assert!(err.contains("records no chunk geometry"), "{err}");

    assert!(settle_geometry(
        &mut index,
        &geometry(DEFAULT_TARGET_CHARS, DEFAULT_OVERLAP_CHARS),
    )
    .is_ok());
    assert_eq!(
        index.geometry,
        Some((DEFAULT_TARGET_CHARS, DEFAULT_OVERLAP_CHARS))
    );
}

#[test]
fn title_comes_from_the_first_heading() {
    assert_eq!(
        first_heading("## Lobbyist Meeting Log\n\nbody"),
        Some("Lobbyist Meeting Log".into())
    );
    assert_eq!(first_heading("no headings here"), None);
    assert_eq!(
        first_heading("#\n\nbody"),
        None,
        "empty heading is not a title"
    );
}

#[test]
fn a_heading_past_the_fortieth_line_is_not_a_title() {
    let mut text = "prose\n".repeat(40);
    text.push_str("# Late");
    assert_eq!(first_heading(&text), None);
    let near = format!("{}   ### Early \r\nbody", "prose\n".repeat(39));
    assert_eq!(first_heading(&near), Some("Early".to_string()));
}

fn seen(blob: &str, address: &str, at: i128) -> Sighting {
    Sighting { blob: blob.into(), address: address.into(), at }
}

fn derived(from: &str, to: &str, at: i128) -> Derived {
    Derived { from: from.into(), to: to.into(), at, tool: "readability 0.1".into() }
}

/// The same PDF linked from two pages is two citations; the same page collected weekly
/// is one, first seen at its first observation.
#[test]
fn each_address_is_placed_once_at_its_first_observation() {
    let log = vec![
        seen("b1", "https://t/a", 50),
        seen("b2", "https://t/x", 10),
        seen("b1", "https://t/b", 70),
        seen("b1", "https://t/a", 20),
        seen("b1", "https://t/a", 90),
    ];
    let ps = places_of(&log, "b1");
    assert_eq!(ps, vec![("https://t/a".to_string(), 20), ("https://t/b".to_string(), 70)]);
    assert!(places_of(&log, "b3").is_empty());
}

/// A refreshed extraction replaces the one it supersedes; a re-run in the same instant
/// wins on log order; the order does not vary run to run.
#[test]
fn only_the_current_derivation_of_a_blob_is_indexed() {
    let log = vec![
        derived("b1", "t-old", 100),
        derived("b2", "t2", 50),
        derived("b1", "t-new", 200),
        derived("b1", "t-stale", 150),
        derived("b2", "t2-rerun", 50),
    ];
    let out = current_derivations(&log);
    let picked: Vec<(&str, i128)> = out.iter().map(|d| (d.to.as_str(), d.at)).collect();
    assert_eq!(picked, vec![("t2-rerun", 50), ("t-new", 200)]);
    assert!(current_derivations(&Vec::new()).is_empty());
}

#[test]
fn placements_already_in_the_index_are_counted_not_redone() {
    let mut r = IndexReport::new(vec!["tampa".into()]);
    r.already_placed();
    r.placed_chunk(true);
    r.placed_chunk(false);
    r.placed_chunk(true);
    assert_eq!(r.already_indexed, 1);
    assert_eq!(r.chunks_written, 2);
    assert_eq!(r.chunks_deduplicated, 1);
}

use centinel_core::ops::build_index::{clear_scope, is_blank, pending_places, Clear};

fn names(v: &[&str]) -> Vec<String> {
    v.iter().map(|s| s.to_string()).collect()
}

#[test]
fn a_rebuild_clears_only_the_sources_it_names() {
    let scoped = IndexArgs { source: Some("tampa".into()), rebuild: true, ..Default::default() };
    match clear_scope(&scoped, &names(&["tampa"])) {
        Clear::Sources(v) => assert_eq!(v, ["tampa"]),
        other => panic!("{other:?}"),
    }
    let all = IndexArgs { rebuild: true, ..Default::default() };
    assert!(matches!(clear_scope(&all, &names(&["tampa", "pinellas"])), Clear::Everything));
    assert!(matches!(clear_scope(&IndexArgs::default(), &names(&["tampa"])), Clear::Nothing));

    let mut index = two_sources();
    index.clear_for(&Clear::Sources(names(&["tampa"])));
    assert_eq!(index.per_source.len(), 1);
    assert_eq!(index.per_source[0], ("pinellas".to_string(), 3));
    index.clear_for(&Clear::Everything);
    assert_eq!(index.chunks(), 0);
}

#[test]
fn clearing_a_source_keeps_every_other_in_order() {
    let mut index = ChunkIndex::in_memory();
    index.add_chunks("a", 1);
    index.add_chunks("b", 2);
    index.add_chunks("a", 3);
    index.add_chunks("c", 4);
    index.clear_source("a");
    assert_eq!(index.per_source, [("b".to_string(), 2), ("c".to_string(), 4)]);
}

#[test]
fn only_the_addresses_not_yet_placed_are_pending_unless_rebuilding() {
    let places = vec![("a".to_string(), 1i128), ("b".to_string(), 2), ("c".to_string(), 3)];
    let placed = vec![true, false, true];
    assert_eq!(pending_places(false, &places, &placed), [("b".to_string(), 2)]);
    assert_eq!(pending_places(true, &places, &placed), places);
    assert!(pending_places(false, &places, &[true, true, true].to_vec()).is_empty());
}

#[test]
fn a_blank_or_chunkless_text_is_not_counted_as_indexed() {
    let mut r = IndexReport::new(vec![]);
    assert!(is_blank(" \n\t\u{a0}"));
    assert!(!is_blank(" x "));
    assert!(!r.derivation_read(true, 3));
    assert!(!r.derivation_read(false, 0));
    assert_eq!(r.documents_indexed, 0);
    assert!(r.derivation_read(false, 2));
    assert_eq!(r.documents_indexed, 1);
    assert!(!r.placing(0));
    assert_eq!(r.already_indexed, 1);
    assert!(r.placing(2));
    r.found(4);
    assert_eq!(r.derivations, 4);
}
