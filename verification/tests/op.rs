use centinel_core::op::{
    is_cancelled, Ctx, Group, OpError, ProgressEvent, Reach, Unit, Verdict,
    TOTAL_TRACK,
};

#[test]
fn an_ordinary_error_is_not_a_cancellation() {
    let err = OpError::fault("connection reset");
    assert!(!is_cancelled(&err));
    assert!(is_cancelled(&OpError::cancelled()));
}

/// It must not collide with anything an op would name a work item, or that item
/// would silently overwrite the aggregate.
#[test]
fn the_aggregate_track_id_is_reserved() {
    assert!(TOTAL_TRACK.starts_with("__"));
    assert!(!TOTAL_TRACK.contains('/'));
}

#[test]
fn a_context_names_its_store() {
    let ctx = Ctx::new("/srv/centinel".into());
    assert_eq!(ctx.store, "/srv/centinel");
}

#[test]
fn only_clean_and_warn_produced_anything() {
    assert!(Verdict::Clean.produced_something());
    assert!(Verdict::Warn.produced_something());
    assert!(!Verdict::Missing.produced_something());
    assert!(!Verdict::Fail.produced_something());
    assert_eq!(Verdict::default(), Verdict::Clean);
    assert_eq!(Unit::default(), Unit::Count);
    assert!(Unit::Count.is_count());
    assert!(!Unit::Bytes.is_count());
}

#[test]
fn a_remote_caller_reaches_only_what_is_open_to_anyone() {
    assert!(Reach::default().is_remote());
    assert!(!Reach::Operator.is_remote());
    assert!(!Reach::Host.is_remote());
    assert!(Reach::Operator.is_schedulable());
    assert!(!Reach::Host.is_schedulable());
}

#[test]
fn every_group_has_a_heading() {
    for g in Group::order() {
        assert!(!g.heading().is_empty());
    }
}

#[test]
fn progress_events_carry_what_they_were_given() {
    let e = ProgressEvent::step("fetching".into(), 3, 10);
    assert_eq!((e.done, e.total), (Some(3), Some(10)));
    let e = ProgressEvent::track("a".into(), "m".into(), 1, 2, Unit::Bytes);
    assert_eq!(e.unit, Unit::Bytes);
    let e = ProgressEvent::say("hello".into());
    assert!(e.id.is_none() && e.done.is_none());
}
