use stratis_core::integrity::IntegritySpec;
use stratis_core::shared::FsSpec;
use stratis_core::sim_engine::engine::SimEngine;
use stratis_core::sim_engine::pool::SimPool;
use stratis_core::types::{
    BlockDevTier, CreateAction, FilesystemUuid, PoolIdentifier, PoolUuid, RenameAction,
    SetDeleteAction,
};

fn paths(ps: &[&str]) -> Vec<String> {
    ps.iter().map(|p| p.to_string()).collect()
}

fn fs(name: &str) -> FsSpec {
    FsSpec { name: name.to_string(), size: None, size_limit: None }
}

fn random_pool_uuid() -> PoolUuid {
    PoolUuid(uuid::Uuid::new_v4().as_u128())
}

fn random_fs_uuid() -> FilesystemUuid {
    FilesystemUuid(uuid::Uuid::new_v4().as_u128())
}

fn create(engine: &mut SimEngine, name: &str, devs: &[&str]) -> PoolUuid {
    engine
        .create_pool(name, &paths(devs), None, IntegritySpec::default_spec())
        .unwrap()
        .changed()
        .unwrap()
}

fn pool_of(engine: &mut SimEngine, uuid: PoolUuid) -> &mut SimPool {
    engine.get_mut_pool(&PoolIdentifier::Uuid(uuid)).unwrap()
}

#[test]
fn get_pool_err() {
    assert!(SimEngine::new()
        .get_pool(&PoolIdentifier::Uuid(random_pool_uuid()))
        .is_none());
}

#[test]
fn destroy_pool_empty() {
    assert!(SimEngine::new().destroy_pool(random_pool_uuid()).is_ok());
}

#[test]
fn destroy_empty_pool() {
    let mut engine = SimEngine::new();
    let uuid = create(&mut engine, "name", &["/dev/one", "/dev/two", "/dev/three"]);
    assert!(engine.destroy_pool(uuid).is_ok());
}

#[test]
fn destroy_pool_w_devices() {
    let mut engine = SimEngine::new();
    let uuid = create(&mut engine, "name", &["/s/d"]);
    assert!(engine.destroy_pool(uuid).is_ok());
}

#[test]
fn destroy_pool_w_filesystem() {
    let mut engine = SimEngine::new();
    let pool_name = "pool_name";
    let uuid = create(&mut engine, pool_name, &["/s/d"]);
    pool_of(&mut engine, uuid).create_filesystems(&vec![fs("test")]).unwrap();
    assert!(engine.destroy_pool(uuid).is_err());
}

#[test]
fn create_pool_name_collision() {
    let name = "name";
    let mut engine = SimEngine::new();
    let devices = paths(&["/s/d"]);
    engine.create_pool(name, &devices, None, IntegritySpec::default_spec()).unwrap();
    assert!(matches!(
        engine.create_pool(name, &devices, None, IntegritySpec::default_spec()),
        Ok(CreateAction::Identity)
    ));
}

#[test]
fn create_pool_name_collision_different_args() {
    let name = "name";
    let mut engine = SimEngine::new();
    engine
        .create_pool(name, &paths(&["/s/d"]), None, IntegritySpec::default_spec())
        .unwrap();
    assert!(engine
        .create_pool(
            name,
            &paths(&["/dev/one", "/dev/two", "/dev/three"]),
            None,
            IntegritySpec::default_spec(),
        )
        .is_err());
}

#[test]
fn create_pool_duplicate_devices() {
    let path = "/s/d";
    let mut engine = SimEngine::new();
    let created = engine
        .create_pool("name", &paths(&[path, path]), None, IntegritySpec::default_spec())
        .unwrap()
        .changed();
    let count = created.map(|uuid| {
        engine
            .get_pool(&PoolIdentifier::Uuid(uuid))
            .unwrap()
            .2
            .blockdevs()
            .len()
    });
    assert_eq!(count, Some(1));
}

#[test]
fn engine_rename_empty() {
    let mut engine = SimEngine::new();
    assert!(matches!(
        engine.rename_pool(random_pool_uuid(), "new_name"),
        Ok(RenameAction::NoSource)
    ));
}

#[test]
fn rename_identity() {
    let name = "name";
    let mut engine = SimEngine::new();
    let uuid = create(&mut engine, name, &["/dev/one", "/dev/two", "/dev/three"]);
    assert_eq!(engine.rename_pool(uuid, name).unwrap(), RenameAction::Identity);
}

#[test]
fn engine_rename_happens() {
    let mut engine = SimEngine::new();
    let uuid = create(&mut engine, "old_name", &["/dev/one", "/dev/two", "/dev/three"]);
    assert_eq!(engine.rename_pool(uuid, "new_name").unwrap(), RenameAction::Renamed(uuid));
}

#[test]
fn engine_rename_fails() {
    let new_name = "new_name";
    let mut engine = SimEngine::new();
    let uuid = create(&mut engine, "old_name", &["/dev/one", "/dev/two", "/dev/three"]);
    engine
        .create_pool(
            new_name,
            &paths(&["/dev/four", "/dev/five", "/dev/six"]),
            None,
            IntegritySpec::default_spec(),
        )
        .unwrap();
    assert!(engine.rename_pool(uuid, new_name).is_err());
}

#[test]
fn engine_rename_no_op() {
    let new_name = "new_name";
    let mut engine = SimEngine::new();
    create(&mut engine, new_name, &["/dev/one", "/dev/two", "/dev/three"]);
    assert!(matches!(
        engine.rename_pool(random_pool_uuid(), new_name),
        Ok(RenameAction::NoSource)
    ));
}

#[test]
fn pool_rename_empty() {
    let mut engine = SimEngine::new();
    let uuid = create(&mut engine, "pool_name", &["/dev/one", "/dev/two", "/dev/three"]);
    let pool = pool_of(&mut engine, uuid);
    assert!(matches!(
        pool.rename_filesystem(random_fs_uuid(), "new_name"),
        Ok(RenameAction::NoSource)
    ));
}

#[test]
fn pool_rename_happens() {
    let mut engine = SimEngine::new();
    let uuid = create(&mut engine, "pool_name", &["/dev/one", "/dev/two", "/dev/three"]);
    let pool = pool_of(&mut engine, uuid);
    let infos = pool
        .create_filesystems(&vec![fs("old_name")])
        .unwrap()
        .changed()
        .unwrap();
    assert!(matches!(
        pool.rename_filesystem(infos[0].1, "new_name").unwrap(),
        RenameAction::Renamed(_)
    ));
}

#[test]
fn pool_rename_fails() {
    let old_name = "old_name";
    let new_name = "new_name";
    let mut engine = SimEngine::new();
    let uuid = create(&mut engine, "pool_name", &["/dev/one", "/dev/two", "/dev/three"]);
    let pool = pool_of(&mut engine, uuid);
    let results = pool
        .create_filesystems(&vec![fs(old_name), fs(new_name)])
        .unwrap()
        .changed()
        .unwrap();
    let old_uuid = results.iter().find(|x| x.0 == old_name).unwrap().1;
    assert!(matches!(pool.rename_filesystem(old_uuid, new_name), Err(_)));
}

#[test]
fn pool_rename_no_op() {
    let new_name = "new_name";
    let mut engine = SimEngine::new();
    let uuid = create(&mut engine, "pool_name", &["/dev/one", "/dev/two", "/dev/three"]);
    let pool = pool_of(&mut engine, uuid);
    assert!(matches!(
        pool.rename_filesystem(random_fs_uuid(), new_name),
        Ok(RenameAction::NoSource)
    ));
}

#[test]
fn destroy_fs_empty() {
    let mut engine = SimEngine::new();
    let uuid = create(&mut engine, "pool_name", &["/dev/one", "/dev/two", "/dev/three"]);
    let pool = pool_of(&mut engine, uuid);
    assert!(match pool.destroy_filesystems(&Vec::new()) {
        Ok(uuids) => !uuids.is_changed(),
        _ => false,
    });
}

#[test]
fn destroy_fs_some() {
    let mut engine = SimEngine::new();
    let uuid = create(&mut engine, "pool_name", &["/dev/one", "/dev/two", "/dev/three"]);
    let pool = pool_of(&mut engine, uuid);
    assert!(matches!(pool.destroy_filesystems(&vec![random_fs_uuid()]), Ok(_)));
}

#[test]
fn destroy_fs_any() {
    let mut engine = SimEngine::new();
    let uuid = create(&mut engine, "pool_name", &["/dev/one", "/dev/two", "/dev/three"]);
    let pool = pool_of(&mut engine, uuid);
    let fs_results = pool
        .create_filesystems(&vec![fs("fs_name")])
        .unwrap()
        .changed()
        .unwrap();
    let fs_uuid = fs_results[0].1;
    assert!(match pool.destroy_filesystems(&vec![fs_uuid]) {
        Ok(filesystems) => filesystems == SetDeleteAction::new(vec![fs_uuid], vec![]),
        _ => false,
    });
}

#[test]
fn create_fs_none() {
    let mut engine = SimEngine::new();
    let uuid = create(&mut engine, "pool_name", &["/dev/one", "/dev/two", "/dev/three"]);
    let pool = pool_of(&mut engine, uuid);
    let created = pool.create_filesystems(&Vec::new()).unwrap();
    assert!(!created.is_changed())
}

#[test]
fn create_fs_some() {
    let mut engine = SimEngine::new();
    let uuid = create(&mut engine, "pool_name", &["/dev/one", "/dev/two", "/dev/three"]);
    let pool = pool_of(&mut engine, uuid);
    assert!(match pool.create_filesystems(&vec![fs("name")]).ok().and_then(|c| c.changed()) {
        Some(names) => (names.len() == 1) & (names[0].0 == "name"),
        _ => false,
    });
}

#[test]
fn create_fs_conflict() {
    let fs_name = "fs_name";
    let mut engine = SimEngine::new();
    let uuid = create(&mut engine, "pool_name", &["/dev/one", "/dev/two", "/dev/three"]);
    let pool = pool_of(&mut engine, uuid);
    pool.create_filesystems(&vec![fs(fs_name)]).unwrap();
    let set_create_action = pool.create_filesystems(&vec![fs(fs_name)]).unwrap();
    assert!(!set_create_action.is_changed());
}

#[test]
fn create_fs_dups() {
    let fs_name = "fs_name";
    let mut engine = SimEngine::new();
    let uuid = create(&mut engine, "pool_name", &["/dev/one", "/dev/two", "/dev/three"]);
    let pool = pool_of(&mut engine, uuid);
    assert!(match pool
        .create_filesystems(&vec![fs(fs_name), fs(fs_name)])
        .ok()
        .and_then(|c| c.changed())
    {
        Some(names) => (names.len() == 1) & (names[0].0 == fs_name),
        _ => false,
    });
}

#[test]
fn add_device_empty() {
    let mut engine = SimEngine::new();
    let uuid = create(&mut engine, "pool_name", &["/dev/one", "/dev/two", "/dev/three"]);
    let pool = pool_of(&mut engine, uuid);
    let devices = paths(&["/s/a", "/s/b"]);
    assert!(match pool.add_blockdevs(&devices, BlockDevTier::Data).ok().and_then(|c| c.changed()) {
        Some(devs) => devs.len() == devices.len(),
        _ => false,
    });
}
