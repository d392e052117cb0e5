use stratis_core::backstore::{requests_fit, CapAllocs, EncState};
use stratis_core::errors::{ErrorReason, StratisError};
use stratis_core::units::Sectors;

#[test]
fn data_follows_encryption_metadata_on_unencrypted_pool() {
    let mut a = CapAllocs::new(EncState::Unencrypted);
    let meta = a.meta_alloc_segments(&vec![Sectors(100)]).unwrap();
    assert_eq!(meta, vec![(Sectors(0), Sectors(100))]);
    let chunks = a.alloc_segments(&vec![Sectors(10), Sectors(20)]);
    assert_eq!(chunks, vec![(Sectors(100), Sectors(10)), (Sectors(110), Sectors(20))]);
    assert_eq!(a.calc_next_cap(), Sectors(130));
    assert_eq!(a.datatier_allocated_size(), Sectors(30));
}

#[test]
fn data_starts_at_zero_on_encrypted_device() {
    let mut a = CapAllocs::new(EncState::Pending);
    a.meta_alloc_segments(&vec![Sectors(100)]).unwrap();
    let chunks = a.alloc_segments(&vec![Sectors(5)]);
    assert_eq!(chunks, vec![(Sectors(0), Sectors(5))]);
    assert_eq!(a.calc_next_cap(), Sectors(5));
}

#[test]
fn metadata_only_before_data() {
    let mut a = CapAllocs::new(EncState::Unencrypted);
    a.alloc_segments(&vec![Sectors(8)]);
    assert_eq!(
        a.meta_alloc_segments(&vec![Sectors(1)]),
        Err(StratisError::Msg(ErrorReason::CacheMetadataAfterData))
    );
    assert_eq!(a.crypt_meta_allocs.len(), 0);
    let active = CapAllocs::new(EncState::Active);
    assert_eq!(active.calc_next_cache(), Err(StratisError::Msg(ErrorReason::CacheMetadataAfterData)));
    assert_eq!(CapAllocs::new(EncState::Pending).calc_next_cache(), Ok(Sectors(0)));
}

#[test]
fn allocations_never_overlap() {
    let mut a = CapAllocs::new(EncState::Unencrypted);
    a.meta_alloc_segments(&vec![Sectors(16), Sectors(16)]).unwrap();
    a.alloc_segments(&vec![Sectors(3), Sectors(4), Sectors(5)]);
    let all: Vec<(Sectors, Sectors)> = a.crypt_meta_allocs.iter().chain(a.allocs.iter()).cloned().collect();
    for w in all.windows(2) {
        assert!(w[0].0 .0 + w[0].1 .0 <= w[1].0 .0);
    }
}

#[test]
fn requests_fit_in_available_space() {
    assert!(requests_fit(Sectors(30), &vec![Sectors(10), Sectors(20)]));
    assert!(!requests_fit(Sectors(30), &vec![Sectors(10), Sectors(21)]));
    assert!(requests_fit(Sectors(0), &vec![]));
    assert!(!requests_fit(Sectors(u64::MAX), &vec![Sectors(u64::MAX), Sectors(1)]));
}

use stratis_core::backstore::linear_table;

#[test]
fn linear_table_maps_segments_end_to_end() {
    let segs = vec![(Sectors(100), Sectors(10)), (Sectors(500), Sectors(20)), (Sectors(50), Sectors(5))];
    assert_eq!(
        linear_table(&segs),
        vec![
            (Sectors(0), Sectors(10), Sectors(100)),
            (Sectors(10), Sectors(20), Sectors(500)),
            (Sectors(30), Sectors(5), Sectors(50)),
        ]
    );
    assert!(linear_table(&vec![]).is_empty());
}

use stratis_core::backstore::request_segments;

#[test]
fn requested_segments_follow_next() {
    assert_eq!(
        request_segments(Sectors(1000), &vec![Sectors(8), Sectors(16)]),
        vec![(Sectors(1000), Sectors(8)), (Sectors(1008), Sectors(16))]
    );
    assert!(request_segments(Sectors(5), &vec![]).is_empty());
}
