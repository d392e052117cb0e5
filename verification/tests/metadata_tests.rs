use stratis_core::errors::{ErrorReason, StratisError};
use stratis_core::metadata::{choose_targets, finish_save, stamp_time, write_candidates, MAX_NUM_TO_WRITE};
use stratis_core::units::{Bytes, Sectors};

#[test]
fn stamps_strictly_increase() {
    assert_eq!(stamp_time(100, None), 100);
    assert_eq!(stamp_time(100, Some(50)), 100);
    assert_eq!(stamp_time(100, Some(100)), 101);
    assert_eq!(stamp_time(100, Some(200)), 201);
}

#[test]
fn candidates_can_hold_the_metadata() {
    let sizes = vec![Sectors(1), Sectors(8), Sectors(2), Sectors(16)];
    assert_eq!(write_candidates(&sizes, Bytes(1024)), vec![1, 2, 3]);
    assert_eq!(write_candidates(&sizes, Bytes(8192)), vec![3]);
    assert!(write_candidates(&sizes, Bytes(1 << 20)).is_empty());
}

#[test]
fn targets_are_distinct_candidates() {
    let sizes: Vec<Sectors> = (0..25).map(|i| Sectors(if i % 2 == 0 { 16 } else { 1 })).collect();
    let targets = choose_targets(&sizes, Bytes(4096));
    assert_eq!(targets.len(), MAX_NUM_TO_WRITE);
    let mut sorted = targets.clone();
    sorted.sort();
    sorted.dedup();
    assert_eq!(sorted.len(), targets.len());
    assert!(targets.iter().all(|&i| i % 2 == 0));
    let few = vec![Sectors(16), Sectors(1), Sectors(16)];
    let mut t = choose_targets(&few, Bytes(4096));
    t.sort();
    assert_eq!(t, vec![0, 2]);
}

#[test]
fn writes_recorded_only_when_one_succeeded() {
    let mut last = Some(5);
    assert_eq!(finish_save(&mut last, 7, &vec![false, true]), Ok(()));
    assert_eq!(last, Some(7));
    assert_eq!(finish_save(&mut last, 9, &vec![false, false]), Err(StratisError::Msg(ErrorReason::MetadataNotSaved)));
    assert_eq!(last, Some(7));
    assert_eq!(finish_save(&mut last, 9, &Vec::new()), Err(StratisError::Msg(ErrorReason::MetadataNotSaved)));
    assert_eq!(last, Some(7));
}
