use stratis_core::blockdev::DevSpace;
use stratis_core::blockdevmgr::{check_cache_size, remove_blockdevs, request_space, MAX_CACHE_SIZE};
use stratis_core::devices::{InitEvent, InitLoop, InitStep};
use stratis_core::errors::{ErrorReason, SlotUse, StratisError};
use stratis_core::keys::{read_key_result, KeyringOutcome, ENOKEY};
use stratis_core::names::validate_name;
use stratis_core::integrity::{integrity_meta_space, validate_integrity_spec, IntegritySpec};
use stratis_core::shared::{gather_pool_name, validate_paths, FsSpec};
use stratis_core::sim_engine::engine::SimEngine;
use stratis_core::types::{CreateAction, MaybeInconsistent, PoolIdentifier, StopAction};
use stratis_core::units::Sectors;

fn paths(ps: &[&str]) -> Vec<String> {
    ps.iter().map(|p| p.to_string()).collect()
}

#[test]
fn create_pool_gives_one_device_per_distinct_path() {
    let mut engine = SimEngine::new();
    let uuid = match engine
        .create_pool("p", &paths(&["/dev/a", "/dev/b", "/dev/a"]), None, IntegritySpec::default_spec())
        .unwrap()
    {
        CreateAction::Created(u) => u,
        CreateAction::Identity => panic!("a new pool is created"),
    };
    let (_, _, pool) = engine.get_pool(&PoolIdentifier::Uuid(uuid)).unwrap();
    let mut nodes: Vec<String> = pool.blockdevs().iter().map(|(_, _, d)| d.devnode.clone()).collect();
    nodes.sort();
    assert_eq!(nodes, paths(&["/dev/a", "/dev/b"]));
}

#[test]
fn second_create_under_taken_name_keeps_the_one_device() {
    let mut engine = SimEngine::new();
    let uuid = engine
        .create_pool("name", &paths(&["/s/d"]), None, IntegritySpec::default_spec())
        .unwrap()
        .changed()
        .unwrap();
    assert!(engine
        .create_pool("name", &paths(&["/dev/one", "/dev/two"]), None, IntegritySpec::default_spec())
        .is_err());
    let (_, _, pool) = engine.get_pool(&PoolIdentifier::Name("name".to_string())).unwrap();
    assert_eq!(pool.blockdevs().len(), 1);
    assert_eq!(engine.pool_uuid(&PoolIdentifier::Name("name".to_string())), Some(uuid));
}

#[test]
fn fresh_pool_uuid_keeps_a_free_first_draw() {
    let engine = SimEngine::new();
    assert_eq!(engine.fresh_pool_uuid(7), Some(7));
}

#[test]
fn fresh_filesystem_uuids_on_a_pool_without_filesystems() {
    let mut engine = SimEngine::new();
    let uuid = engine
        .create_pool("p", &paths(&["/dev/a"]), None, IntegritySpec::default_spec())
        .unwrap()
        .changed()
        .unwrap();
    let pool = engine.get_mut_pool(&PoolIdentifier::Uuid(uuid)).unwrap();
    assert!(pool.fresh_fs_uuid(&Vec::new()).is_some());
    assert_eq!(pool.fresh_fs_uuids(1).map(|v| v.len()), Some(1));
    assert_eq!(pool.fresh_fs_uuids(0).map(|v| v.len()), Some(0));
}

#[test]
fn one_filesystem_on_a_fresh_pool_is_created() {
    let mut engine = SimEngine::new();
    let uuid = engine
        .create_pool("p", &paths(&["/dev/a"]), None, IntegritySpec::default_spec())
        .unwrap()
        .changed()
        .unwrap();
    let pool = engine.get_mut_pool(&PoolIdentifier::Uuid(uuid)).unwrap();
    let spec = FsSpec { name: "fs".to_string(), size: None, size_limit: None };
    let created = pool.create_filesystems(&vec![spec]).unwrap().changed().unwrap();
    assert_eq!(created.len(), 1);
    assert_eq!(created[0].0, "fs");
    assert_eq!(pool.filesystems().len(), 1);
}

#[test]
fn validate_paths_names_non_absolute_paths_in_order() {
    assert_eq!(
        validate_paths(&paths(&["/dev/one", "dev/two", "three"])),
        Err(StratisError::PathsNotAbsolute(paths(&["dev/two", "three"])))
    );
    assert_eq!(
        validate_paths(&paths(&["b", "/x", "a"])),
        Err(StratisError::PathsNotAbsolute(paths(&["b", "a"])))
    );
    assert_eq!(validate_paths(&paths(&["/dev/one"])), Ok(()));
    assert_eq!(validate_paths(&Vec::new()), Ok(()));
}

#[test]
fn gather_pool_name_ignores_order() {
    let a = Some(Some("a".to_string()));
    let b = Some(Some("b".to_string()));
    let first = vec![a.clone(), b.clone(), a.clone()];
    let second = vec![b.clone(), a.clone(), a.clone()];
    assert_eq!(gather_pool_name(3, &first), Ok(Some(MaybeInconsistent::Yes)));
    assert_eq!(gather_pool_name(3, &first), gather_pool_name(3, &second));
    let same = vec![a.clone(), a.clone()];
    assert_eq!(gather_pool_name(2, &same), Ok(Some(MaybeInconsistent::No(Some("a".to_string())))));
    let mixed = vec![None, a.clone()];
    let mixed_swapped = vec![a.clone(), None];
    assert_eq!(gather_pool_name(2, &mixed), Err(StratisError::MixedEncryption));
    assert_eq!(gather_pool_name(2, &mixed), gather_pool_name(2, &mixed_swapped));
}

#[test]
fn grow_refuses_a_shrunk_device_and_keeps_free_space() {
    let mut space = DevSpace { total: Sectors(1000), used: Sectors(100), integrity_meta_allocs: Vec::new() };
    assert_eq!(space.grow(Sectors(999)), Err(StratisError::Msg(ErrorReason::Shrunk)));
    assert_eq!(space.total_size(), Sectors(1000));
    assert_eq!(space.grow(Sectors(1000)), Ok(false));
    assert_eq!(space.available(), Sectors(900));
    assert_eq!(space.grow(Sectors(1500)), Ok(true));
    assert_eq!(space.total_size(), Sectors(1500));
    assert_eq!(space.available(), Sectors(1400));
}

#[test]
fn grow_with_integrity_reserves_the_added_metadata() {
    let spec = validate_integrity_spec(IntegritySpec::default_spec()).unwrap();
    let before = integrity_meta_space(Sectors(4_000_000), spec);
    let after = integrity_meta_space(Sectors(8_000_000), spec);
    assert!(after.0 > before.0);
    let mut space = DevSpace {
        total: Sectors(4_000_000),
        used: Sectors(before.0 + 1000),
        integrity_meta_allocs: vec![(Sectors(4_000_000 - before.0), before)],
    };
    let free_before = space.available();
    assert_eq!(space.grow_with_integrity(Sectors(3_999_999), spec), Err(StratisError::Msg(ErrorReason::Shrunk)));
    assert_eq!(space.grow_with_integrity(Sectors(4_000_000), spec), Ok(false));
    assert_eq!(space.grow_with_integrity(Sectors(8_000_000), spec), Ok(true));
    let extra = after.0 - before.0;
    assert_eq!(space.total_size(), Sectors(8_000_000));
    assert_eq!(space.used, Sectors(before.0 + 1000 + extra));
    assert_eq!(space.integrity_meta_allocs[1], (Sectors(8_000_000 - extra), Sectors(extra)));
    assert_eq!(space.available().0, free_before.0 + 4_000_000 - extra);
}

fn run(n: usize, fail_at: Option<usize>) -> (Vec<InitStep>, InitStep) {
    let mut state = InitLoop::new(n);
    let mut steps = Vec::new();
    loop {
        let step = state.next_step();
        match step {
            InitStep::Initialize(i) => {
                steps.push(step);
                state.advance(if Some(i) == fail_at { InitEvent::Error } else { InitEvent::Done });
            }
            InitStep::Wipe => {
                steps.push(step);
                state.advance(InitEvent::Error);
            }
            InitStep::Succeeded | InitStep::Failed => return (steps, step),
        }
    }
}

#[test]
fn initialization_runs_every_device_in_order() {
    let (steps, end) = run(3, None);
    assert_eq!(steps, vec![InitStep::Initialize(0), InitStep::Initialize(1), InitStep::Initialize(2)]);
    assert_eq!(end, InitStep::Succeeded);
}

#[test]
fn initialization_stops_at_first_failure_then_wipes() {
    let (steps, end) = run(4, Some(1));
    assert_eq!(steps, vec![InitStep::Initialize(0), InitStep::Initialize(1), InitStep::Wipe]);
    assert_eq!(end, InitStep::Failed);
    let (none, end) = run(0, None);
    assert!(none.is_empty());
    assert_eq!(end, InitStep::Succeeded);
}

#[test]
fn stop_pool_displaces_a_stopped_pool_of_the_same_name() {
    let mut engine = SimEngine::new();
    let first = engine
        .create_pool("p", &paths(&["/dev/a"]), None, IntegritySpec::default_spec())
        .unwrap()
        .changed()
        .unwrap();
    assert_eq!(engine.stop_pool(&PoolIdentifier::Uuid(first)).unwrap(), StopAction::Stopped(first));
    let second = engine
        .create_pool("p", &paths(&["/dev/b"]), None, IntegritySpec::default_spec())
        .unwrap()
        .changed()
        .unwrap();
    assert_eq!(engine.stop_pool(&PoolIdentifier::Uuid(second)).unwrap(), StopAction::Stopped(second));
    let stopped = engine.stopped_pools();
    assert_eq!(stopped.len(), 1);
    assert_eq!((stopped[0].name.as_str(), stopped[0].uuid), ("p", second));
}

#[test]
fn request_space_fills_devices_in_order() {
    let free = vec![Sectors(10), Sectors(5), Sectors(20)];
    let plan = request_space(&free, &vec![Sectors(12), Sectors(8)]).unwrap();
    assert_eq!(plan, vec![vec![Sectors(10), Sectors(2), Sectors(0)], vec![Sectors(0), Sectors(3), Sectors(5)]]);
    for (row, size) in plan.iter().zip([12u64, 8]) {
        assert_eq!(row.iter().map(|s| s.0).sum::<u64>(), size);
    }
    for (i, f) in free.iter().enumerate() {
        assert!(plan.iter().map(|row| row[i].0).sum::<u64>() <= f.0);
    }
}

#[test]
fn request_space_refuses_more_than_is_free() {
    assert_eq!(request_space(&vec![Sectors(3)], &vec![Sectors(2), Sectors(2)]), None);
    assert_eq!(request_space(&vec![Sectors(4)], &vec![Sectors(2), Sectors(2)]), Some(vec![vec![Sectors(2)], vec![Sectors(2)]]));
    assert_eq!(request_space(&Vec::new(), &Vec::new()), Some(Vec::new()));
}

#[test]
fn errors_give_the_daemon_messages() {
    assert_eq!(
        validate_paths(&paths(&["/dev/one", "dev/two", "three"])).unwrap_err().message(),
        Some("Paths{dev/two, three} are not absolute".to_string())
    );
    assert_eq!(validate_name("").unwrap_err().message(), Some("Provided string is empty: ".to_string()));
    assert_eq!(validate_name("a/b").unwrap_err().message(), Some("Provided string is a directory path: a/b".to_string()));
    assert_eq!(
        StratisError::KeyNotFound("k".to_string()).message(),
        Some("Key k was not found in the keyring".to_string())
    );
    assert_eq!(
        StratisError::Msg(ErrorReason::NoDevicesForPool).message(),
        Some("At least one blockdev is required to create a pool.".to_string())
    );
    assert_eq!(StratisError::Msg(ErrorReason::PoolNotFound).message(), None);
}

#[test]
fn cache_size_is_limited_to_32_tib() {
    assert_eq!(check_cache_size(Sectors(MAX_CACHE_SIZE - 10), Sectors(10)), Ok(()));
    assert_eq!(
        check_cache_size(Sectors(MAX_CACHE_SIZE - 10), Sectors(11)),
        Err(StratisError::CacheTooLarge(MAX_CACHE_SIZE))
    );
    assert_eq!(MAX_CACHE_SIZE * 512, 32 * 1024u64.pow(4));
}

#[test]
fn remove_blockdevs_is_all_or_nothing() {
    let mut devs = vec![1u128, 2, 3, 4];
    assert_eq!(remove_blockdevs(&mut devs, &vec![2, 9]), Err(StratisError::BlockdevUuidNotFound(9)));
    assert_eq!(devs, vec![1, 2, 3, 4]);
    assert_eq!(remove_blockdevs(&mut devs, &vec![2, 1]), Ok(vec![2, 1]));
    assert_eq!(devs, vec![3, 4]);
}

#[test]
fn missing_key_is_no_key_and_no_error() {
    assert_eq!(read_key_result(KeyringOutcome::RequestFailed(ENOKEY)), Ok(None));
    assert_eq!(read_key_result(KeyringOutcome::RequestFailed(13)), Err(StratisError::Keyring(13)));
    assert_eq!(read_key_result(KeyringOutcome::AttachFailed(1)), Err(StratisError::Keyring(1)));
    assert_eq!(read_key_result(KeyringOutcome::ReadFailed(5)), Err(StratisError::Keyring(5)));
    assert_eq!(read_key_result(KeyringOutcome::Read(vec![1, 2])), Ok(Some(vec![1, 2])));
}

#[test]
fn device_difference_messages() {
    let mut engine = SimEngine::new();
    engine.create_pool("name", &paths(&["/s/d"]), None, IntegritySpec::default_spec()).unwrap();
    let err = engine
        .create_pool("name", &paths(&["/dev/one"]), None, IntegritySpec::default_spec())
        .unwrap_err();
    assert_eq!(
        err.message(),
        Some(
            "There was a difference in the blockdevs associated with the existing pool named name and the input \
             requesting creation of a pool by the same name - the input requests blockdev /dev/one which does not \
             exist in the current pool - the existing pool contains blockdev /s/d which was not requested by the input"
                .to_string()
        )
    );
    assert_eq!(
        StratisError::CacheDevicesDiffer(paths(&["/a", "/b"]), Vec::new()).message(),
        Some(
            "The input requests initialization of a cache with different block devices from the block devices in \
             the existing cache; the input requested block devices /a, /b which do not exist in the already \
             initialized cache ; to resolve this error, the block devices requested in the input should be the same \
             as the block devices in the existing cache."
                .to_string()
        )
    );
    assert_eq!(
        StratisError::NameTaken("p".to_string()).message(),
        Some("Entry with name p already exists".to_string())
    );
    assert_eq!(
        StratisError::Msg(ErrorReason::FilesystemLimitReached(100)).message(),
        Some(
            "The pool limit of 100 filesystems has already been reached; increase the filesystem limit on the pool \
             to continue"
                .to_string()
        )
    );
}

#[test]
fn fixed_and_slot_messages() {
    assert_eq!(
        StratisError::Msg(ErrorReason::SlotBoundToClevis(SlotUse::Unbind, 3)).message(),
        Some("Cannot unbind token slot 3 from keyring; bound to Clevis".to_string())
    );
    assert_eq!(
        StratisError::Msg(ErrorReason::SlotBoundToKeyring(SlotUse::Rebind, 12)).message(),
        Some("Cannot rebind slot 12 with a key description; slot is bound to a key config".to_string())
    );
    assert_eq!(
        StratisError::Msg(ErrorReason::LastUnlockMethod(false)).message(),
        Some(
            "There is one remaining unlock method; removing the Clevis binding would remove the ability to open \
             this device; aborting"
                .to_string()
        )
    );
    assert_eq!(
        StratisError::Msg(ErrorReason::UnsupportedPin).message(),
        Some("Unsupported clevis pin".to_string())
    );
    assert_eq!(
        StratisError::Msg(ErrorReason::CacheMetadataMissing).message(),
        Some("Cachedevs exist, but cache metadata does not exist".to_string())
    );
}
