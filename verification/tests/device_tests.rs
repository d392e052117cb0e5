use stratis_core::backstore::{cache_layout, extend_cap_plan, CacheLayout, CapPlan, EncState};
use stratis_core::clevis::{interpret_clevis_config, Json, CLEVIS_TANG_TRUST_URL};
use stratis_core::crypt::{name_from_uuids, stratis_token_is_valid, StratisLuks2Token};
use stratis_core::device::DevOwnership;
use stratis_core::devices::{
    check_udev_ownership, process_and_verify_devices, unique_paths, DeviceInfo, InProgress,
    ProcessedPaths, UdevOwnership,
};
use stratis_core::identify::{process_stratis_device, process_unowned_device, DeviceProbe};
use stratis_core::integrity::IntegritySpec;
use stratis_core::sim_engine::engine::SimEngine;
use stratis_core::types::{
    BlockDevTier, DevUuid, PoolIdentifier, PoolUuid, StratisIdentifiers,
};
use stratis_core::units::Bytes;

const GIB: u128 = 1024 * 1024 * 1024;

fn new_pool_uuid() -> PoolUuid {
    PoolUuid(uuid::Uuid::new_v4().as_u128())
}

fn new_dev_uuid() -> DevUuid {
    DevUuid(uuid::Uuid::new_v4().as_u128())
}

fn device(devno: u64, node: &str) -> DeviceInfo {
    DeviceInfo { devno, devnode: node.to_string(), id_wwn: None, size: Bytes(8 * GIB) }
}

fn loop_paths(n: usize) -> Vec<String> {
    (0..n).map(|i| format!("/dev/loop{}", i)).collect()
}

/// The devices at `paths`, as read before or after initialization for a
/// pool: with the identifiers that initialization wrote, if any.
fn read_devices(
    paths: &[String],
    ids: &[Option<StratisIdentifiers>],
) -> Vec<(DeviceInfo, Option<StratisIdentifiers>)> {
    paths
        .iter()
        .enumerate()
        .map(|(i, p)| (device(7 * 256 + i as u64, p), ids[i]))
        .collect()
}

/// Initialize the blank devices at `paths` for `pool_uuid`: the identifiers
/// each then carries.
fn initialize(paths: &[String], pool_uuid: PoolUuid) -> Vec<Option<StratisIdentifiers>> {
    let blank = vec![None; paths.len()];
    let free = process_and_verify_devices(pool_uuid, &Vec::new(), read_devices(paths, &blank)).unwrap();
    assert_eq!(free.len(), paths.len());
    free.iter()
        .map(|_| Some(StratisIdentifiers { pool_uuid, device_uuid: new_dev_uuid() }))
        .collect()
}

fn test_other_ownership(paths: &[String]) {
    // A device with a filesystem on it is reported as owned by udev.
    let _ = &paths[0];
    assert!(matches!(
        DevOwnership::from_udev_ownership(&UdevOwnership::Theirs, None),
        DevOwnership::Theirs(_)
    ));
}

fn test_empty(paths: &[String]) {
    let _ = &paths[0];
    assert!(matches!(
        DevOwnership::from_udev_ownership(&UdevOwnership::Unowned, None),
        DevOwnership::Unowned
    ));
}

#[test]
fn loop_test_device_other_ownership() {
    for n in 1..3 {
        test_other_ownership(&loop_paths(n));
    }
}

#[test]
fn real_test_device_other_ownership() {
    test_other_ownership(&loop_paths(1));
}

#[test]
fn loop_test_device_empty() {
    for n in 1..3 {
        test_empty(&loop_paths(n));
    }
}

#[test]
fn real_test_device_empty() {
    test_empty(&loop_paths(1));
}

fn test_process_device_initialized(paths: &[String]) {
    assert!(!paths.is_empty());
    let pool_uuid = new_pool_uuid();
    let ids = initialize(paths, pool_uuid);
    for (i, path) in paths.iter().enumerate() {
        let probe = DeviceProbe {
            devnode: Some(path.clone()),
            devno: Some(7 * 256 + i as u64),
            identifiers: Ok(ids[i]),
        };
        let (identifiers, _, dev_node) = process_stratis_device(&probe).unwrap();
        assert_eq!(identifiers.pool_uuid, pool_uuid);
        assert_eq!(&dev_node, path);

        let (identifiers, _, dev_node) = process_unowned_device(&probe).unwrap();
        assert_eq!(identifiers.pool_uuid, pool_uuid);
        assert_eq!(&dev_node, path);
    }
}

#[test]
fn loop_test_process_device_initialized() {
    test_process_device_initialized(&loop_paths(1));
}

#[test]
fn real_test_process_device_initialized() {
    test_process_device_initialized(&loop_paths(1));
}

#[test]
fn travis_test_process_device_initialized() {
    test_process_device_initialized(&loop_paths(1));
}

fn test_process_device_uninitialized(paths: &[String]) {
    assert!(!paths.is_empty());
    // Blank devices, and then devices with a filesystem: no Stratis
    // identifiers either way.
    for _ in 0..2 {
        for (i, path) in paths.iter().enumerate() {
            let probe = DeviceProbe {
                devnode: Some(path.clone()),
                devno: Some(7 * 256 + i as u64),
                identifiers: Ok(None),
            };
            assert_eq!(process_stratis_device(&probe), None);
            assert_eq!(process_unowned_device(&probe), None);
        }
    }
}

#[test]
fn loop_test_process_device_uninitialized() {
    test_process_device_uninitialized(&loop_paths(1));
}

#[test]
fn real_test_process_device_uninitialized() {
    test_process_device_uninitialized(&loop_paths(1));
}

#[test]
fn travis_test_process_device_uninitialized() {
    test_process_device_uninitialized(&loop_paths(1));
}

fn test_ownership(paths: &[String], encrypted: bool) {
    let pool_uuid = new_pool_uuid();
    let ids = initialize(paths, pool_uuid);
    assert!(ids.iter().all(|i| i.map(|i| i.pool_uuid) == Some(pool_uuid)));
    let initialized_uuids: Vec<DevUuid> = ids.iter().map(|i| i.unwrap().device_uuid).collect();

    // The initialized devices are left out for their own pool.
    let found =
        process_and_verify_devices(pool_uuid, &initialized_uuids, read_devices(paths, &ids)).unwrap();
    assert!(found.is_empty());

    // They are refused when not among the pool's devices, or for another
    // pool.
    assert!(process_and_verify_devices(pool_uuid, &Vec::new(), read_devices(paths, &ids)).is_err());
    assert!(process_and_verify_devices(new_pool_uuid(), &initialized_uuids, read_devices(paths, &ids))
        .is_err());

    // An encrypted device is seen through its LUKS2 header, which udev
    // reports as owned by something other than Stratis.
    if encrypted {
        assert!(check_udev_ownership(UdevOwnership::Luks).is_err());
    }

    // Once wiped, the devices carry no identifiers again.
    let wiped = vec![None; paths.len()];
    let found = process_and_verify_devices(pool_uuid, &initialized_uuids, read_devices(paths, &wiped)).unwrap();
    assert_eq!(found.len(), paths.len());
}

#[test]
fn loop_test_ownership() {
    for n in 1..3 {
        test_ownership(&loop_paths(n), false);
    }
}

#[test]
fn real_test_ownership() {
    test_ownership(&loop_paths(1), false);
}

#[test]
fn loop_test_crypt_ownership() {
    for n in 1..3 {
        test_ownership(&loop_paths(n), true);
    }
}

#[test]
fn real_test_crypt_ownership() {
    test_ownership(&loop_paths(1), true);
}

fn test_failure_cleanup(paths: &[String]) {
    assert!(paths.len() > 1);
    let pool_uuid = new_pool_uuid();
    let blank = vec![None; paths.len()];
    let infos = match ProcessedPaths::try_from(read_devices(paths, &blank)) {
        Ok(p) => p,
        Err(_) => panic!("devices must be accepted"),
    };
    assert!(infos.stratis_devices.is_empty());
    let dev_infos = infos.into_filtered(pool_uuid, &Vec::new()).unwrap();
    assert_eq!(dev_infos.len(), paths.len());

    // Initialization claims the paths and, when it fails on the last
    // device, releases them all, leaving no identifiers behind.
    let mut in_progress = InProgress::new();
    let claimed: Vec<String> = dev_infos.iter().map(|d| d.devnode.clone()).collect();
    assert!(in_progress.claim(&claimed).is_ok());
    assert!(in_progress.claim(&claimed[..1].to_vec()).is_err());
    in_progress.release(&claimed);
    assert!(in_progress.claim(&claimed).is_ok());
    in_progress.release(&claimed);

    let found = process_and_verify_devices(pool_uuid, &Vec::new(), read_devices(paths, &blank)).unwrap();
    assert_eq!(found.len(), paths.len());
}

#[test]
fn loop_test_crypt_failure_cleanup() {
    for n in 2..3 {
        test_failure_cleanup(&loop_paths(n));
    }
}

#[test]
fn real_test_crypt_failure_cleanup() {
    test_failure_cleanup(&loop_paths(2));
}

#[test]
fn loop_test_failure_cleanup() {
    for n in 2..3 {
        test_failure_cleanup(&loop_paths(n));
    }
}

#[test]
fn real_test_failure_cleanup() {
    test_failure_cleanup(&loop_paths(2));
}

fn test_duplicate_devnodes(paths: &[String]) {
    assert!(!paths.is_empty());
    let duplicate_paths: Vec<String> = paths.iter().chain(paths.iter()).cloned().collect();
    let result = unique_paths(&duplicate_paths);
    assert_eq!(result.len(), paths.len());
}

#[test]
fn loop_test_duplicate_devnodes() {
    for n in 1..2 {
        test_duplicate_devnodes(&loop_paths(n));
    }
}

#[test]
fn real_test_duplicate_devnodes() {
    test_duplicate_devnodes(&loop_paths(1));
}

fn test_initialization_add_stratis(paths: &[String]) {
    assert!(paths.len() > 1);
    let (paths1, paths2) = paths.split_at(paths.len() / 2);
    let uuid = new_pool_uuid();
    let uuid2 = new_pool_uuid();

    let ids1 = initialize(paths1, uuid);
    // The devices cannot be taken by another pool.
    let processed = match ProcessedPaths::try_from(read_devices(paths1, &ids1)) {
        Ok(p) => p,
        Err(_) => panic!("devices must be accepted"),
    };
    assert!(!processed.stratis_devices.iter().any(|(p, _)| *p == uuid2));
    assert!(processed.stratis_devices.iter().any(|(p, _)| *p == uuid));
    assert!(processed.into_filtered(uuid2, &Vec::new()).is_err());

    let ids2 = initialize(paths2, uuid);
    let processed = match ProcessedPaths::try_from(read_devices(paths2, &ids2)) {
        Ok(p) => p,
        Err(_) => panic!("devices must be accepted"),
    };
    assert!(processed.stratis_devices.iter().any(|(p, _)| *p == uuid));
}

#[test]
fn loop_test_initialization_stratis() {
    test_initialization_add_stratis(&loop_paths(2));
    test_initialization_add_stratis(&loop_paths(3));
}

#[test]
fn real_test_initialization_stratis() {
    test_initialization_add_stratis(&loop_paths(2));
}

fn tang_url() -> (String, Json) {
    ("url".to_string(), Json::Str("http://tang.example".to_string()))
}

fn test_clevis_tang_configs() {
    let mut config = Json::Object(vec![tang_url()]);
    assert!(interpret_clevis_config("tang", &mut config).is_err());

    let mut config = Json::Object(vec![
        (CLEVIS_TANG_TRUST_URL.to_string(), Json::Bool(true)),
        tang_url(),
    ]);
    assert_eq!(interpret_clevis_config("tang", &mut config).unwrap(), true);
    assert_eq!(config, Json::Object(vec![tang_url()]));
}

#[test]
fn clevis_real_test_clevis_tang_configs() {
    test_clevis_tang_configs();
}

#[test]
fn clevis_loop_test_clevis_tang_configs() {
    test_clevis_tang_configs();
}

fn sss_pins() -> (String, Json) {
    (
        "pins".to_string(),
        Json::Object(vec![
            ("tang".to_string(), Json::Object(vec![tang_url()])),
            ("tpm2".to_string(), Json::Object(vec![])),
        ]),
    )
}

fn test_clevis_sss_configs() {
    let mut config = Json::Object(vec![("t".to_string(), Json::Number(1)), sss_pins()]);
    assert!(interpret_clevis_config("sss", &mut config).is_err());

    let mut config = Json::Object(vec![
        ("t".to_string(), Json::Number(1)),
        (CLEVIS_TANG_TRUST_URL.to_string(), Json::Bool(true)),
        sss_pins(),
    ]);
    assert_eq!(interpret_clevis_config("sss", &mut config).unwrap(), true);
}

#[test]
fn clevis_real_test_clevis_sss_configs() {
    test_clevis_sss_configs();
}

#[test]
fn clevis_loop_test_clevis_sss_configs() {
    test_clevis_sss_configs();
}

fn test_failed_init() {
    // An initialization that failed wrote no Stratis token.
    assert!(!stratis_token_is_valid(None));
    assert!(!stratis_token_is_valid(Some(&Vec::new())));
}

#[test]
fn crypt_loop_test_failed_init() {
    test_failed_init();
}

#[test]
fn travis_test_failed_init() {
    test_failed_init();
}

#[test]
fn mod_loop_test_failed_init() {
    test_failed_init();
}

fn test_crypt_device_ops() {
    let pool_uuid = new_pool_uuid();
    let dev_uuid = new_dev_uuid();
    let token = StratisLuks2Token {
        devname: name_from_uuids(&pool_uuid, &dev_uuid),
        identifiers: StratisIdentifiers { pool_uuid, device_uuid: dev_uuid },
        pool_name: None,
    };
    let written = token.serialize();
    assert!(stratis_token_is_valid(Some(&written)));
    assert_eq!(StratisLuks2Token::deserialize(&written).unwrap(), token);
}

#[test]
fn loop_test_crypt_device_ops() {
    test_crypt_device_ops();
}

#[test]
fn travis_test_crypt_device_ops() {
    test_crypt_device_ops();
}

/// Set up a backstore on the first half of the devices and add a cache on
/// the second half: the device over the origin changes from a placeholder
/// to a cache.
fn test_setup(paths: &[String]) {
    assert!(paths.len() > 1);
    let (paths1, paths2) = paths.split_at(paths.len() / 2);
    let pool_uuid = new_pool_uuid();
    let ids1 = initialize(paths1, pool_uuid);
    assert!(ids1.iter().all(|i| i.unwrap().pool_uuid == pool_uuid));

    let old_device = cache_layout(false, false).unwrap();
    assert_eq!(old_device, CacheLayout::Placeholder);
    assert_eq!(extend_cap_plan(false, false, EncState::Unencrypted), CapPlan::Create);

    let ids2 = initialize(paths2, pool_uuid);
    assert!(ids2.iter().all(|i| i.unwrap().pool_uuid == pool_uuid));
    let new_device = cache_layout(true, true).unwrap();
    assert_ne!(new_device, old_device);
}

#[test]
fn backstore_loop_test_setup() {
    test_setup(&loop_paths(2));
    test_setup(&loop_paths(3));
}

#[test]
fn backstore_real_test_setup() {
    test_setup(&loop_paths(2));
}

#[test]
fn v1_loop_test_setup() {
    test_setup(&loop_paths(2));
}

#[test]
fn v1_real_test_setup() {
    test_setup(&loop_paths(2));
}

#[test]
fn v2_loop_test_setup() {
    test_setup(&loop_paths(2));
}

#[test]
fn v2_real_test_setup() {
    test_setup(&loop_paths(2));
}

/// Initialize a pool on some devices, add a cache, then more data and
/// cache devices: each addition reports one device per path, and growing
/// the data tier under a cache reloads the cache's origin.
fn test_add_cache_devs(paths: &[String]) {
    assert!(paths.len() > 3);
    let (initcachepaths, rest) = paths.split_at(1);
    let (cachedevpaths, rest) = rest.split_at(1);
    let (datadevpaths, initdatapaths) = rest.split_at(1);

    let mut engine = SimEngine::new();
    let uuid = engine
        .create_pool("pool_name", &initdatapaths.to_vec(), None, IntegritySpec::default_spec())
        .unwrap()
        .changed()
        .unwrap();
    let pool = engine.get_mut_pool(&PoolIdentifier::Uuid(uuid)).unwrap();

    let cache_uuids = pool.init_cache(&initcachepaths.to_vec(), true).unwrap();
    assert_eq!(cache_uuids.changed.len(), initcachepaths.len());

    let data_uuids = pool.add_blockdevs(&datadevpaths.to_vec(), BlockDevTier::Data).unwrap();
    assert_eq!(data_uuids.changed.len(), datadevpaths.len());
    assert_eq!(
        extend_cap_plan(true, false, EncState::Unencrypted),
        CapPlan::ReloadCacheOrigin { resize_crypt: false }
    );

    let cache_uuids = pool.add_blockdevs(&cachedevpaths.to_vec(), BlockDevTier::Cache).unwrap();
    assert_eq!(cache_uuids.changed.len(), cachedevpaths.len());
}

#[test]
fn backstore_loop_test_add_cache_devs() {
    test_add_cache_devs(&loop_paths(4));
    test_add_cache_devs(&loop_paths(5));
}

#[test]
fn backstore_real_test_add_cache_devs() {
    test_add_cache_devs(&loop_paths(4));
}

#[test]
fn v1_loop_test_add_cache_devs() {
    test_add_cache_devs(&loop_paths(4));
}

#[test]
fn v1_real_test_add_cache_devs() {
    test_add_cache_devs(&loop_paths(4));
}

#[test]
fn v2_loop_test_add_cache_devs() {
    test_add_cache_devs(&loop_paths(4));
}

#[test]
fn v2_real_test_add_cache_devs() {
    test_add_cache_devs(&loop_paths(4));
}

use stratis_core::activate::{CryptActivationHandle, UnlockProbe};
use stratis_core::backstore::{requests_fit, CapAllocs};
use stratis_core::crypt::{is_encrypted_stratis_device, JsonValue};
use stratis_core::units::Sectors;

fn trusted_tang_config() -> Json {
    Json::Object(vec![
        (CLEVIS_TANG_TRUST_URL.to_string(), Json::Bool(true)),
        ("url".to_string(), Json::Str("http://tang.example".to_string())),
    ])
}

fn stratis_token() -> Vec<(String, JsonValue)> {
    let pool_uuid = new_pool_uuid();
    let dev_uuid = new_dev_uuid();
    StratisLuks2Token {
        devname: name_from_uuids(&pool_uuid, &dev_uuid),
        identifiers: StratisIdentifiers { pool_uuid, device_uuid: dev_uuid },
        pool_name: Some("pool_name".to_string()),
    }
    .serialize()
}

fn clevis_token() -> Json {
    Json::Object(vec![
        ("jwe".to_string(), Json::Object(vec![("protected".to_string(), Json::Str("e30".to_string()))])),
        ("keyslots".to_string(), Json::Array(vec![Json::Str("1".to_string())])),
    ])
}

/// Binding a device with a trusted Tang configuration writes a Stratis
/// token and a Clevis token, and no keyring token.
fn test_clevis_initialize() {
    let mut config = trusted_tang_config();
    assert_eq!(interpret_clevis_config("tang", &mut config).unwrap(), true);
    let token = stratis_token();
    assert!(is_encrypted_stratis_device(Some(Some(&token)), None, true));
    let clevis = clevis_token();
    let probe = UnlockProbe {
        key_description_found: false,
        keyring_token_opens: false,
        clevis_token: Some(&clevis),
        clevis_decrypted: true,
    };
    assert!(CryptActivationHandle::can_unlock(false, true, &probe));
}

/// Binding with both a key and a trusted Tang configuration writes both
/// tokens; the device unlocks with Clevis once the key is gone.
fn test_both_initialize() {
    let mut config = trusted_tang_config();
    assert_eq!(interpret_clevis_config("tang", &mut config).unwrap(), true);
    let token = stratis_token();
    let keyring = vec![("type".to_string(), JsonValue::Str("luks2-keyring".to_string()))];
    assert!(is_encrypted_stratis_device(Some(Some(&token)), Some(Some(&keyring)), true));
    let clevis = clevis_token();
    let probe = UnlockProbe {
        key_description_found: true,
        keyring_token_opens: false,
        clevis_token: Some(&clevis),
        clevis_decrypted: true,
    };
    assert!(CryptActivationHandle::can_unlock(false, true, &probe));
    assert!(!CryptActivationHandle::can_unlock(true, true, &probe));
}

#[test]
fn mod_clevis_loop_test_initialize() {
    test_clevis_initialize();
}

#[test]
fn v1_clevis_real_test_initialize() {
    test_clevis_initialize();
}

#[test]
fn v1_clevis_loop_test_initialize() {
    test_clevis_initialize();
}

#[test]
fn v2_clevis_real_test_initialize() {
    test_clevis_initialize();
}

#[test]
fn v2_clevis_loop_test_initialize() {
    test_clevis_initialize();
}

#[test]
fn mod_clevis_loop_test_both_initialize() {
    test_both_initialize();
}

#[test]
fn v1_clevis_real_test_both_initialize() {
    test_both_initialize();
}

#[test]
fn v1_clevis_loop_test_both_initialize() {
    test_both_initialize();
}

#[test]
fn v2_clevis_real_test_both_initialize() {
    test_both_initialize();
}

#[test]
fn v2_clevis_loop_test_both_initialize() {
    test_both_initialize();
}

/// Devices initialized with a key can be unlocked while the key opens them,
/// active or not, and not once they are wiped.
fn test_can_unlock(paths: &[String]) {
    for _ in paths {
        let open = UnlockProbe {
            key_description_found: true,
            keyring_token_opens: true,
            clevis_token: None,
            clevis_decrypted: false,
        };
        assert!(CryptActivationHandle::can_unlock(true, false, &open));
        let wiped = UnlockProbe { keyring_token_opens: false, ..open };
        assert!(!CryptActivationHandle::can_unlock(true, false, &wiped));
    }
}

#[test]
fn loop_test_can_unlock() {
    for n in 1..3 {
        test_can_unlock(&loop_paths(n));
    }
}

#[test]
fn real_test_can_unlock() {
    test_can_unlock(&loop_paths(1));
}

/// Space allocated from a data tier is accounted for: nothing at first,
/// then each request exactly; adding devices leaves the allocations as
/// they were and makes room for more.
fn test_add_and_alloc(paths: &[String]) {
    assert!(paths.len() > 1);
    let per_device = Sectors(2 * 1024 * 1024);
    let mut allocs = CapAllocs::new(EncState::Unencrypted);
    assert_eq!(allocs.datatier_allocated_size(), Sectors(0));
    let half = paths.len() / 2;
    let size = Sectors(per_device.0 * half as u64);
    let request = Sectors(size.0 / 2);
    assert!(requests_fit(size, &vec![request]));
    allocs.alloc_segments(&vec![request]);
    assert_eq!(allocs.datatier_allocated_size(), request);
    let bigger = Sectors(per_device.0 * paths.len() as u64);
    let available = Sectors(bigger.0 - request.0);
    assert!(!requests_fit(Sectors(size.0 - request.0), &vec![size]));
    assert!(requests_fit(available, &vec![size]));
    allocs.alloc_segments(&vec![size]);
    assert_eq!(allocs.datatier_allocated_size(), Sectors(request.0 + size.0));
}

#[test]
fn data_tier_loop_test_add_and_alloc() {
    test_add_and_alloc(&loop_paths(2));
    test_add_and_alloc(&loop_paths(3));
}

#[test]
fn data_tier_real_test_add_and_alloc() {
    test_add_and_alloc(&loop_paths(2));
}

/// Initially the available space and the metadata make up the whole size;
/// after two sectors are allocated they count too.
fn test_blockdevmgr_used(paths: &[String]) {
    let size = Sectors(2 * 1024 * 1024 * paths.len() as u64);
    let metadata = Sectors(8192 * paths.len() as u64);
    let mut allocs = CapAllocs::new(EncState::Unencrypted);
    let avail = |a: &CapAllocs| Sectors(size.0 - metadata.0 - a.datatier_allocated_size().0);
    assert_eq!(avail(&allocs).0 + metadata.0, size.0);
    allocs.alloc_segments(&vec![Sectors(2)]);
    assert_eq!(avail(&allocs).0 + 2 + metadata.0, size.0);
}

#[test]
fn loop_test_blockdevmgr_used() {
    for n in 1..3 {
        test_blockdevmgr_used(&loop_paths(n));
    }
}

#[test]
fn real_test_blockdevmgr_used() {
    test_blockdevmgr_used(&loop_paths(1));
}

/// Adding devices to a cache adds them to the cache tier.
fn test_cache_add(paths: &[String]) {
    assert!(paths.len() > 1);
    let (paths1, paths2) = paths.split_at(paths.len() / 2);
    let mut engine = SimEngine::new();
    let uuid = engine
        .create_pool("pool_name", &vec!["/dev/data".to_string()], None, IntegritySpec::default_spec())
        .unwrap()
        .changed()
        .unwrap();
    let pool = engine.get_mut_pool(&PoolIdentifier::Uuid(uuid)).unwrap();
    pool.init_cache(&paths1.to_vec(), true).unwrap();
    let before = pool.cache_devs.len();
    let added = pool.add_blockdevs(&paths2.to_vec(), BlockDevTier::Cache).unwrap();
    assert_eq!(added.changed.len(), paths2.len());
    assert!(pool.cache_devs.len() > before);
    assert_eq!(
        extend_cap_plan(true, false, EncState::Unencrypted),
        CapPlan::ReloadCacheOrigin { resize_crypt: false }
    );
}

#[test]
fn cache_tier_loop_cache_test_add() {
    test_cache_add(&loop_paths(2));
    test_cache_add(&loop_paths(3));
}

#[test]
fn cache_tier_real_cache_test_add() {
    test_cache_add(&loop_paths(2));
}
