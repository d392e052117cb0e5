use sha2::Digest;
use stratis_core::clevis::Json;
use stratis_core::errors::{ErrorReason, StratisError};
use stratis_core::jwe::{
    clevis_info_from_metadata, get_keyslot_number, parse_u32, pin_dispatch, tang_dispatch,
};

fn s(x: &str) -> Json {
    Json::Str(x.to_string())
}

fn obj(members: Vec<(&str, Json)>) -> Json {
    Json::Object(members.into_iter().map(|(k, v)| (k.to_string(), v)).collect())
}

fn b64(bytes: &[u8]) -> String {
    data_encoding::BASE64URL_NOPAD.encode(bytes)
}

fn tang_jwe() -> Json {
    obj(vec![(
        "clevis",
        obj(vec![
            ("pin", s("tang")),
            (
                "tang",
                obj(vec![
                    (
                        "adv",
                        obj(vec![(
                            "keys",
                            Json::Array(vec![
                                obj(vec![
                                    ("alg", s("ECMR")),
                                    ("key_ops", Json::Array(vec![s("deriveKey")])),
                                    ("kty", s("EC")),
                                ]),
                                obj(vec![
                                    ("alg", s("ES512")),
                                    ("crv", s("P-521")),
                                    ("key_ops", Json::Array(vec![s("verify")])),
                                    ("kty", s("EC")),
                                    ("x", s("AA")),
                                    ("y", s("BB")),
                                ]),
                            ]),
                        )]),
                    ),
                    ("url", s("http://tang.example")),
                ]),
            ),
        ]),
    )])
}

fn expected_thp() -> String {
    let text = br#"{"crv":"P-521","kty":"EC","x":"AA","y":"BB"}"#;
    b64(&sha2::Sha256::digest(text))
}

#[test]
fn tang_config_has_thumbprint_of_verification_key() {
    let r = tang_dispatch(&tang_jwe()).unwrap();
    assert_eq!(r, obj(vec![("thp", s(&expected_thp())), ("url", s("http://tang.example"))]));
}

#[test]
fn tang_without_verification_key_is_refused() {
    let jwe = obj(vec![(
        "clevis",
        obj(vec![(
            "tang",
            obj(vec![
                ("adv", obj(vec![("keys", Json::Array(vec![]))])),
                ("url", s("http://tang.example")),
            ]),
        )]),
    )]);
    assert_eq!(tang_dispatch(&jwe), Err(StratisError::Msg(ErrorReason::VerificationKeyNotFound)));
    let no_url = obj(vec![("clevis", obj(vec![("tang", obj(vec![]))]))]);
    assert_eq!(tang_dispatch(&no_url), Err(StratisError::Msg(ErrorReason::TangUrlExpected)));
    assert_eq!(tang_dispatch(&obj(vec![])), Err(StratisError::Msg(ErrorReason::TangObjectExpected)));
}

#[test]
fn tpm2_pin_gives_empty_object() {
    let jwe = obj(vec![("clevis", obj(vec![("pin", s("tpm2"))]))]);
    assert_eq!(pin_dispatch(&jwe, 20).unwrap(), ("tpm2".to_string(), obj(vec![])));
}

#[test]
fn unknown_or_missing_pin_is_refused() {
    let jwe = obj(vec![("clevis", obj(vec![("pin", s("yubikey"))]))]);
    assert_eq!(pin_dispatch(&jwe, 20), Err(StratisError::Msg(ErrorReason::UnsupportedPin)));
    assert_eq!(pin_dispatch(&obj(vec![]), 20), Err(StratisError::Msg(ErrorReason::ClevisPinMissing)));
}

fn sss_jwe(jwes: Vec<Json>) -> Json {
    obj(vec![(
        "clevis",
        obj(vec![
            ("pin", s("sss")),
            ("sss", obj(vec![("jwe", Json::Array(jwes)), ("t", Json::Number(1))])),
        ]),
    )])
}

#[test]
fn sss_gathers_configurations_by_pin() {
    let tpm = b64(br#"{"clevis":{"pin":"tpm2","tpm2":{}}}"#);
    let jwe = sss_jwe(vec![s(&format!("{}.rest", tpm)), s(&tpm)]);
    let (pin, config) = pin_dispatch(&jwe, 20).unwrap();
    assert_eq!(pin, "sss");
    assert_eq!(
        config,
        obj(vec![
            ("pins", obj(vec![("tpm2", Json::Array(vec![obj(vec![]), obj(vec![])]))])),
            ("t", Json::Number(1)),
        ])
    );
}

#[test]
fn sss_errors() {
    let jwe = sss_jwe(vec![s("!!!")]);
    assert_eq!(pin_dispatch(&jwe, 20), Err(StratisError::Msg(ErrorReason::InvalidBase64)));
    let jwe = sss_jwe(vec![s(&b64(b"not json"))]);
    assert_eq!(pin_dispatch(&jwe, 20), Err(StratisError::Msg(ErrorReason::InvalidJson)));
    let jwe = sss_jwe(vec![Json::Number(3)]);
    assert_eq!(pin_dispatch(&jwe, 20), Err(StratisError::Msg(ErrorReason::SssJweNotString)));
    assert_eq!(pin_dispatch(&sss_jwe(vec![]), 0), Err(StratisError::Msg(ErrorReason::RecursionLimit)));
}

#[test]
fn clevis_info_reads_protected_header() {
    assert_eq!(clevis_info_from_metadata(None), Ok(None));
    assert_eq!(clevis_info_from_metadata(Some(&obj(vec![]))), Ok(None));
    let header = br#"{"clevis":{"pin":"tpm2","tpm2":{"pcr_bank":"sha256"}}}"#;
    let token = obj(vec![("jwe", obj(vec![("protected", s(&b64(header)))]))]);
    assert_eq!(clevis_info_from_metadata(Some(&token)), Ok(Some(("tpm2".to_string(), obj(vec![])))));
    let bad = obj(vec![("jwe", obj(vec![("protected", s("a"))]))]);
    assert_eq!(clevis_info_from_metadata(Some(&bad)), Err(StratisError::Msg(ErrorReason::InvalidBase64)));
}

#[test]
fn keyslots_of_token() {
    assert_eq!(get_keyslot_number(None), Ok(None));
    let token = obj(vec![(
        "keyslots",
        Json::Array(vec![s("1"), s("x"), Json::Number(3), s("+2"), s("4294967296")]),
    )]);
    assert_eq!(get_keyslot_number(Some(&token)), Ok(Some(vec![1, 2])));
    assert_eq!(
        get_keyslot_number(Some(&obj(vec![]))),
        Err(StratisError::Msg(ErrorReason::KeyslotsMalformed))
    );
}

#[test]
fn parse_u32_agrees_with_std() {
    for text in ["42", "+7", "-1", "", "+", "4294967295", "4294967296", "007", "1 ", "12a"] {
        assert_eq!(parse_u32(text), text.parse::<u32>().ok(), "{text}");
    }
}

use stratis_core::activate::{CryptActivationHandle, UnlockProbe};

fn probe(kd: bool, opens: bool, t: Option<&Json>, dec: bool) -> UnlockProbe<'_> {
    UnlockProbe { key_description_found: kd, keyring_token_opens: opens, clevis_token: t, clevis_decrypted: dec }
}

fn clevis_token(slots: Vec<Json>) -> Json {
    obj(vec![("jwe", obj(vec![("protected", s("x"))])), ("keyslots", Json::Array(slots))])
}

#[test]
fn can_unlock_decisions() {
    let token = clevis_token(vec![s("1")]);
    assert!(CryptActivationHandle::can_unlock(true, false, &probe(true, true, None, false)));
    assert!(!CryptActivationHandle::can_unlock(true, false, &probe(true, false, None, false)));
    assert!(CryptActivationHandle::can_unlock(true, false, &probe(false, false, None, false)));
    assert!(CryptActivationHandle::can_unlock(false, true, &probe(false, false, Some(&token), true)));
    assert!(!CryptActivationHandle::can_unlock(false, true, &probe(false, false, Some(&token), false)));
    let no_slots = clevis_token(vec![s("x")]);
    assert!(!CryptActivationHandle::can_unlock(false, true, &probe(false, false, Some(&no_slots), true)));
    assert!(CryptActivationHandle::can_unlock(false, true, &probe(false, false, Some(&obj(vec![])), false)));
    assert!(CryptActivationHandle::can_unlock(false, true, &probe(false, false, None, false)));
}
