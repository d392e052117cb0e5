use stratis_core::devlinks::{filesystem_mount_path, pool_directory};
use stratis_core::errors::{ErrorReason, StratisError};
use stratis_core::integrity::IntegritySpec;
use stratis_core::keys::{InputEncryptionInfo, KeyDescription, OptionalTokenSlotInput, TokenUnlockMethod, UnlockMechanism};
use stratis_core::shared::FsSpec;
use stratis_core::sim_engine::engine::SimEngine;
use stratis_core::types::{
    CreateAction, DeleteAction, PoolIdentifier, RenameAction, StartAction, StopAction,
};
use stratis_core::units::{Bytes, Sectors};

fn paths(ps: &[&str]) -> Vec<String> {
    ps.iter().map(|p| p.to_string()).collect()
}

fn spec(name: &str, size: Option<u128>) -> FsSpec {
    FsSpec { name: name.to_string(), size: size.map(Bytes), size_limit: None }
}

#[test]
fn stop_then_start_restores_pool() {
    let mut engine = SimEngine::new();
    let uuid = engine
        .create_pool("p", &paths(&["/dev/a"]), None, IntegritySpec::default_spec())
        .unwrap()
        .changed()
        .unwrap();
    assert_eq!(engine.stop_pool(&PoolIdentifier::Uuid(uuid)).unwrap(), StopAction::Stopped(uuid));
    assert!(engine.get_pool(&PoolIdentifier::Uuid(uuid)).is_none());
    assert_eq!(engine.stop_pool(&PoolIdentifier::Uuid(uuid)).unwrap(), StopAction::Identity);
    assert_eq!(
        engine.start_pool(&PoolIdentifier::Uuid(uuid), TokenUnlockMethod::NoMethod, false).unwrap(),
        StartAction::Started(uuid)
    );
    let (name, found, _) = engine.get_pool(&PoolIdentifier::Name("p".to_string())).unwrap();
    assert_eq!((name.as_str(), found), ("p", uuid));
    assert_eq!(
        engine.start_pool(&PoolIdentifier::Uuid(uuid), TokenUnlockMethod::Any, false),
        Err(StratisError::Msg(ErrorReason::PoolNotEncryptedUnlock))
    );
}

#[test]
fn rename_then_lookup_finds_filesystem_by_new_name() {
    let mut engine = SimEngine::new();
    let uuid = engine
        .create_pool("p", &paths(&["/dev/a"]), None, IntegritySpec::default_spec())
        .unwrap()
        .changed()
        .unwrap();
    let pool = engine.get_mut_pool(&PoolIdentifier::Uuid(uuid)).unwrap();
    let created = pool.create_filesystems(&vec![spec("a", None)]).unwrap().changed().unwrap();
    let fs_uuid = created[0].1;
    assert_eq!(pool.rename_filesystem(fs_uuid, "b").unwrap(), RenameAction::Renamed(fs_uuid));
    assert_eq!(pool.get_filesystem_by_name("b").map(|(u, _)| u), Some(fs_uuid));
    assert!(pool.get_filesystem_by_name("a").is_none());
    assert_eq!(pool.rename_filesystem(fs_uuid, "b").unwrap(), RenameAction::Identity);
}

#[test]
fn created_filesystems_match_requests_and_repeat_is_identity() {
    let mut engine = SimEngine::new();
    let uuid = engine
        .create_pool("p", &paths(&["/dev/a"]), None, IntegritySpec::default_spec())
        .unwrap()
        .changed()
        .unwrap();
    let pool = engine.get_mut_pool(&PoolIdentifier::Uuid(uuid)).unwrap();
    let requests = vec![spec("x", Some(1024 * 1024 * 1024)), spec("y", None), spec("x", Some(2 * 1024 * 1024 * 1024))];
    let created = pool.create_filesystems(&requests).unwrap().changed().unwrap();
    assert_eq!(created.len(), 2);
    let (_, x) = pool.get_filesystem_by_name("x").unwrap();
    assert_eq!(x.size(), Sectors(2 * 1024 * 1024 * 2));
    assert!(!pool.create_filesystems(&requests).unwrap().is_changed());
    // A conflicting size for an existing name is refused.
    assert!(pool.create_filesystems(&vec![spec("y", Some(1024 * 1024 * 1024))]).is_err());
}

#[test]
fn invalid_filesystem_size_is_refused() {
    let mut engine = SimEngine::new();
    let uuid = engine
        .create_pool("p", &paths(&["/dev/a"]), None, IntegritySpec::default_spec())
        .unwrap()
        .changed()
        .unwrap();
    let pool = engine.get_mut_pool(&PoolIdentifier::Uuid(uuid)).unwrap();
    assert!(pool.create_filesystems(&vec![spec("z", Some(513))]).is_err());
    assert!(pool.create_filesystems(&vec![spec("bad/name", None)]).is_err());
}

#[test]
fn bind_then_unbind_key_restores_bindings() {
    let mut engine = SimEngine::new();
    let kd1 = KeyDescription("key1".to_string());
    let kd2 = KeyDescription("key2".to_string());
    engine.key_handler.set(&kd1, vec![1, 2, 3]);
    engine.key_handler.set(&kd2, vec![4, 5, 6]);
    let enc = InputEncryptionInfo { items: vec![(None, UnlockMechanism::KeyDesc(kd1.duplicate()))] };
    let uuid = engine
        .create_pool("p", &paths(&["/dev/a"]), Some(&enc), IntegritySpec::default_spec())
        .unwrap()
        .changed()
        .unwrap();
    let pool = engine.get_mut_pool(&PoolIdentifier::Uuid(uuid)).unwrap();
    let before = pool.encryption_info().unwrap().duplicate();
    let bound = pool.bind_keyring(OptionalTokenSlotInput::Free, &kd2).unwrap();
    let slot = match bound {
        CreateAction::Created((_, slot)) => slot,
        CreateAction::Identity => panic!("a new binding was expected"),
    };
    assert_eq!(pool.encryption_info().unwrap().num_slots(), 2);
    assert_eq!(pool.unbind_keyring(Some(slot)).unwrap(), DeleteAction::Deleted(stratis_core::types::Key));
    assert!(pool.encryption_info().unwrap().same_as(&before));
    // The last unlock method cannot be unbound.
    assert!(pool.unbind_keyring(None).is_err());
}

#[test]
fn devlink_paths() {
    assert_eq!(pool_directory("pool"), "/dev/stratis/pool");
    assert_eq!(filesystem_mount_path("pool", "fs"), "/dev/stratis/pool/fs");
}
