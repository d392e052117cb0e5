use stratis_core::blockdev::StratBlockDevState;
use stratis_core::crypt::{is_encrypted_stratis_device, name_from_uuids, JsonValue, StratisLuks2Token};
use stratis_core::integrity::IntegritySpec;
use stratis_core::shared::FsSpec;
use stratis_core::sim_engine::blockdev::StratSigblockVersion;
use stratis_core::sim_engine::engine::SimEngine;
use stratis_core::types::{DevUuid, PoolIdentifier, PoolUuid, StratisIdentifiers};
use stratis_core::units::Sectors;

#[test]
fn filesystems_lists_each_once() {
    let mut engine = SimEngine::new();
    let uuid = engine
        .create_pool("p", &vec!["/dev/a".to_string()], None, IntegritySpec::default_spec())
        .unwrap()
        .changed()
        .unwrap();
    let pool = engine.get_mut_pool(&PoolIdentifier::Uuid(uuid)).unwrap();
    let specs = vec![
        FsSpec { name: "a".to_string(), size: None, size_limit: None },
        FsSpec { name: "b".to_string(), size: None, size_limit: None },
    ];
    pool.create_filesystems(&specs).unwrap();
    let mut names: Vec<String> = pool.filesystems().into_iter().map(|(n, _, _)| n).collect();
    names.sort();
    assert_eq!(names, vec!["a".to_string(), "b".to_string()]);
}

#[test]
fn stopped_pools_report() {
    let mut engine = SimEngine::new();
    let devs = vec!["/dev/a".to_string(), "/dev/b".to_string()];
    let uuid = engine.create_pool("p", &devs, None, IntegritySpec::default_spec()).unwrap().changed().unwrap();
    assert!(engine.stopped_pools().is_empty());
    engine.stop_pool(&PoolIdentifier::Uuid(uuid)).unwrap();
    let report = engine.stopped_pools();
    assert_eq!(report.len(), 1);
    assert_eq!(report[0].name, "p");
    assert_eq!(report[0].uuid, uuid);
    assert!(!report[0].encrypted);
    assert!(report[0].info.is_none());
    assert_eq!(report[0].metadata_version, StratSigblockVersion::V2);
    let mut nodes: Vec<String> = report[0].devices.iter().map(|(n, _)| n.clone()).collect();
    nodes.sort();
    assert_eq!(nodes, devs);
}

#[test]
fn new_size_is_reported_once() {
    let mut st = StratBlockDevState { new_size: None };
    assert_eq!(st.calc_new_size(Sectors(100), Sectors(100)), None);
    assert_eq!(st.calc_new_size(Sectors(100), Sectors(150)), Some(Sectors(150)));
    st.set_new_size(Sectors(100), Sectors(150));
    assert_eq!(st.new_size, Some(Sectors(150)));
    assert_eq!(st.calc_new_size(Sectors(100), Sectors(150)), None);
    assert_eq!(st.calc_new_size(Sectors(100), Sectors(100)), Some(Sectors(100)));
    st.set_new_size(Sectors(100), Sectors(100));
    assert_eq!(st.new_size, None);
    st.set_new_size(Sectors(100), Sectors(50));
    assert_eq!(st.new_size, Some(Sectors(50)));
}

#[test]
fn encrypted_stratis_device_tokens() {
    let p = PoolUuid(1);
    let d = DevUuid(2);
    let token = StratisLuks2Token {
        devname: name_from_uuids(&p, &d),
        identifiers: StratisIdentifiers { pool_uuid: p, device_uuid: d },
        pool_name: Some("pool".to_string()),
    }
    .serialize();
    let keyring = vec![("type".to_string(), JsonValue::Str("luks2-keyring".to_string()))];
    let other = vec![("type".to_string(), JsonValue::Str("other".to_string()))];
    assert!(is_encrypted_stratis_device(Some(Some(&token)), Some(Some(&keyring)), false));
    assert!(is_encrypted_stratis_device(Some(Some(&token)), None, true));
    assert!(!is_encrypted_stratis_device(Some(Some(&token)), None, false));
    assert!(!is_encrypted_stratis_device(Some(Some(&token)), Some(Some(&other)), true));
    assert!(!is_encrypted_stratis_device(Some(None), Some(Some(&keyring)), false));
    assert!(!is_encrypted_stratis_device(None, Some(Some(&keyring)), true));
}

use stratis_core::clevis::Json;
use stratis_core::sim_engine::filesystem::SimFilesystem;
use stratis_core::types::FilesystemUuid;

fn s(x: &str) -> Json {
    Json::Str(x.to_string())
}

fn member<'a>(j: &'a Json, k: &str) -> &'a Json {
    match j {
        Json::Object(m) => &m.iter().find(|(n, _)| n == k).unwrap().1,
        _ => panic!("not an object"),
    }
}

#[test]
fn filesystem_report_members() {
    let f = SimFilesystem {
        rand: 0,
        created: 0,
        size: Sectors(2048),
        size_limit: None,
        origin: Some(FilesystemUuid(0x0123456789abcdef0123456789abcdef)),
        merge_scheduled: false,
    };
    assert_eq!(
        f.report(),
        vec![
            ("origin".to_string(), s("01234567-89ab-cdef-0123-456789abcdef")),
            ("size".to_string(), s("2048 sectors")),
            ("size_limit".to_string(), s("Not set")),
            ("used".to_string(), s("524288 bytes")),
        ]
    );
}

#[test]
fn engine_report_lists_pools() {
    let mut engine = SimEngine::new();
    let uuid = engine
        .create_pool("p", &vec!["/dev/a".to_string()], None, IntegritySpec::default_spec())
        .unwrap()
        .changed()
        .unwrap();
    let report = engine.report();
    let pools = match member(&report, "pools") {
        Json::Array(v) => v,
        _ => panic!("pools is an array"),
    };
    assert_eq!(pools.len(), 1);
    assert_eq!(member(&pools[0], "name"), &s("p"));
    assert_eq!(member(&pools[0], "available_actions"), &s("fully_operational"));
    assert_eq!(member(&pools[0], "fs_limit"), &Json::Number(10));
    let text = uuid::Uuid::from_u128(uuid.0).hyphenated().to_string();
    assert_eq!(member(&pools[0], "pool_uuid"), &s(&text));
    let datadevs = member(member(&pools[0], "blockdevs"), "datadevs");
    match datadevs {
        Json::Array(d) => {
            assert_eq!(d.len(), 1);
            assert_eq!(member(&d[0], "path"), &s("/dev/a"));
            assert_eq!(member(&d[0], "size"), &s("2097152 sectors"));
        },
        _ => panic!("datadevs is an array"),
    }
    assert_eq!(member(&report, "stopped_pools"), &Json::Array(vec![]));
}
