use stratis_core::crypt::{
    ceiling_sector_size_alignment, crypt_metadata_size, dm_name_valid, luks2_token_type_is_valid,
    name_from_uuids, stratis_token_is_valid, JsonValue, StratisLuks2Token, TokenError, TokenField,
};
use stratis_core::types::{DevUuid, PoolUuid, StratisIdentifiers};
use stratis_core::units::Bytes;

const P: u128 = 0x0123456789abcdef0123456789abcdef;
const D: u128 = 0xfedcba9876543210fedcba9876543210;

fn token(pool_name: Option<&str>) -> StratisLuks2Token {
    StratisLuks2Token {
        devname: name_from_uuids(&PoolUuid(P), &DevUuid(D)),
        identifiers: StratisIdentifiers { pool_uuid: PoolUuid(P), device_uuid: DevUuid(D) },
        pool_name: pool_name.map(|s| s.to_string()),
    }
}

fn entry(k: &str, v: JsonValue) -> (String, JsonValue) {
    (k.to_string(), v)
}

fn text(s: &str) -> JsonValue {
    JsonValue::Str(s.to_string())
}

#[test]
fn activation_name_is_simple_uuids_joined() {
    assert_eq!(
        name_from_uuids(&PoolUuid(P), &DevUuid(D)),
        "0123456789abcdef0123456789abcdef-fedcba9876543210fedcba9876543210"
    );
}

#[test]
fn token_round_trips() {
    for t in [token(None), token(Some("pool"))] {
        let written = t.serialize();
        assert!(stratis_token_is_valid(Some(&written)));
        assert_eq!(StratisLuks2Token::deserialize(&written).unwrap(), t);
    }
}

#[test]
fn token_holds_hyphenated_uuids() {
    let written = token(None).serialize();
    let pool_text = uuid::Uuid::from_u128(P).hyphenated().to_string();
    assert!(written.contains(&entry("pool_uuid", text(&pool_text))));
    assert!(written.contains(&entry("type", text("stratis"))));
    assert!(written.contains(&entry("keyslots", JsonValue::Array(0))));
}

fn valid_entries() -> Vec<(String, JsonValue)> {
    token(None).serialize()
}

fn with(mut e: Vec<(String, JsonValue)>, k: &str, v: JsonValue) -> Vec<(String, JsonValue)> {
    e.push(entry(k, v));
    e
}

#[test]
fn token_parse_errors() {
    assert_eq!(
        StratisLuks2Token::deserialize(&with(valid_entries(), "extra", JsonValue::Other)),
        Err(TokenError::UnrecognizedKey("extra".to_string()))
    );
    assert_eq!(
        StratisLuks2Token::deserialize(&vec![]),
        Err(TokenError::MissingField(TokenField::Type))
    );
    assert_eq!(
        StratisLuks2Token::deserialize(&with(valid_entries(), "type", text("luks2-keyring"))),
        Err(TokenError::WrongTokenType("luks2-keyring".to_string()))
    );
    assert_eq!(
        StratisLuks2Token::deserialize(&with(valid_entries(), "keyslots", JsonValue::Array(1))),
        Err(TokenError::NonEmptyKeyslots)
    );
    assert_eq!(
        StratisLuks2Token::deserialize(&with(valid_entries(), "activation_name", text(""))),
        Err(TokenError::InvalidActivationName(String::new()))
    );
    assert_eq!(
        StratisLuks2Token::deserialize(&with(valid_entries(), "pool_uuid", text("nope"))),
        Err(TokenError::InvalidUuid(TokenField::PoolUuid, "nope".to_string()))
    );
    assert_eq!(
        StratisLuks2Token::deserialize(&with(valid_entries(), "pool_name", JsonValue::Array(0))),
        Err(TokenError::WrongValueType(TokenField::PoolName))
    );
    assert!(!stratis_token_is_valid(Some(&with(valid_entries(), "device_uuid", JsonValue::Other))));
}

#[test]
fn keyring_token_type() {
    assert!(luks2_token_type_is_valid(Some(&vec![entry("type", text("luks2-keyring"))])));
    assert!(!luks2_token_type_is_valid(Some(&vec![entry("type", text("stratis"))])));
    assert!(!luks2_token_type_is_valid(None));
}

#[test]
fn dm_names() {
    assert!(dm_name_valid("stratis-1-private"));
    assert!(!dm_name_valid(""));
    assert!(!dm_name_valid(&"a".repeat(128)));
    assert!(dm_name_valid(&"a".repeat(127)));
    assert!(!dm_name_valid("caf\u{e9}"));
}

#[test]
fn sector_alignment() {
    assert_eq!(ceiling_sector_size_alignment(Bytes(0)), Bytes(0));
    assert_eq!(ceiling_sector_size_alignment(Bytes(1)), Bytes(4096));
    assert_eq!(ceiling_sector_size_alignment(Bytes(4096)), Bytes(4096));
    assert_eq!(ceiling_sector_size_alignment(Bytes(4097)), Bytes(8192));
    assert_eq!(crypt_metadata_size(), Bytes(16777216));
}
