//! The LUKS2 tokens that Stratis writes on encrypted devices: the Stratis
//! token, which records the device's identity, and the keyring token.

use vstd::prelude::*;
use vstd::arithmetic::power::pow;
use crate::outside::{parse_uuid, uuid_hyphenated, uuid_hyphenated_text, uuid_parse, uuid_simple, uuid_simple_text};
use crate::types::{DevUuid, PoolUuid, StratisIdentifiers};
use crate::units::Bytes;

verus! {

/// Key of the token type.
pub const TOKEN_TYPE_KEY: &'static str = "type";
/// Key of the list of key slots a token unlocks.
pub const TOKEN_KEYSLOTS_KEY: &'static str = "keyslots";
/// Key of the name under which the device is activated.
pub const STRATIS_TOKEN_DEVNAME_KEY: &'static str = "activation_name";
/// Key of the UUID of the device's pool.
pub const STRATIS_TOKEN_POOL_UUID_KEY: &'static str = "pool_uuid";
/// Key of the UUID of the device.
pub const STRATIS_TOKEN_DEV_UUID_KEY: &'static str = "device_uuid";
/// Key of the name of the device's pool.
pub const STRATIS_TOKEN_POOLNAME_KEY: &'static str = "pool_name";
/// Type of the Stratis token.
pub const STRATIS_TOKEN_TYPE: &'static str = "stratis";
/// Type of the token that unlocks with a key in the kernel keyring.
pub const LUKS2_TOKEN_TYPE: &'static str = "luks2-keyring";

/// Size of a LUKS2 sector, in bytes.
pub const LUKS2_SECTOR_SIZE: u128 = 4096;
/// Size of each of the two copies of the LUKS2 JSON metadata area.
pub const DEFAULT_CRYPT_METADATA_SIZE: u128 = 16384;
/// Size of the LUKS2 key slot area.
pub const DEFAULT_CRYPT_KEYSLOTS_SIZE: u128 = 16744448;

/// Longest name devicemapper accepts, in bytes.
pub const DM_NAME_MAX: usize = 127;

/// What token parsing reads of a JSON value: a string, an array (by its
/// length), or anything else.
#[derive(Debug, PartialEq, Eq)]
pub enum JsonValue {
    Str(String),
    Array(usize),
    Other,
}

/// Mathematical value of a JSON value as token parsing reads it.
pub enum JsonView {
    Str(Seq<char>),
    Array(nat),
    Other,
}

impl View for JsonValue {
    type V = JsonView;

    open spec fn view(&self) -> JsonView {
        match self {
            JsonValue::Str(s) => JsonView::Str(s@),
            JsonValue::Array(n) => JsonView::Array(*n as nat),
            JsonValue::Other => JsonView::Other,
        }
    }
}

/// The members of a JSON object, in order, as mathematical values.
pub open spec fn entries_view(e: Seq<(String, JsonValue)>) -> Seq<(Seq<char>, JsonView)> {
    Seq::new(e.len(), |i: int| (e[i].0@, e[i].1@))
}

/// The Stratis token: the name under which the device is activated, its
/// identity, and, when recorded, the name of its pool.
#[derive(Debug, PartialEq, Eq)]
pub struct StratisLuks2Token {
    pub devname: String,
    pub identifiers: StratisIdentifiers,
    pub pool_name: Option<String>,
}

/// Mathematical value of a Stratis token.
pub struct TokenView {
    pub devname: Seq<char>,
    pub identifiers: StratisIdentifiers,
    pub pool_name: Option<Seq<char>>,
}

impl View for StratisLuks2Token {
    type V = TokenView;

    open spec fn view(&self) -> TokenView {
        TokenView {
            devname: self.devname@,
            identifiers: self.identifiers,
            pool_name: match self.pool_name {
                Some(s) => Some(s@),
                None => None,
            },
        }
    }
}

/// A member of the Stratis token.
#[derive(Debug, Clone, Copy, PartialEq, Eq, Structural)]
pub enum TokenField {
    Type,
    Keyslots,
    ActivationName,
    PoolUuid,
    DeviceUuid,
    PoolName,
}

/// Why a JSON object is not a Stratis token.
#[derive(Debug, PartialEq, Eq)]
pub enum TokenError {
    UnrecognizedKey(String),
    MissingField(TokenField),
    WrongValueType(TokenField),
    WrongTokenType(String),
    NonEmptyKeyslots,
    InvalidActivationName(String),
    InvalidUuid(TokenField, String),
}

/// Mathematical value of a token error.
pub enum TokenErrorView {
    UnrecognizedKey(Seq<char>),
    MissingField(TokenField),
    WrongValueType(TokenField),
    WrongTokenType(Seq<char>),
    NonEmptyKeyslots,
    InvalidActivationName(Seq<char>),
    InvalidUuid(TokenField, Seq<char>),
}

impl View for TokenError {
    type V = TokenErrorView;

    open spec fn view(&self) -> TokenErrorView {
        match self {
            TokenError::UnrecognizedKey(k) => TokenErrorView::UnrecognizedKey(k@),
            TokenError::MissingField(f) => TokenErrorView::MissingField(*f),
            TokenError::WrongValueType(f) => TokenErrorView::WrongValueType(*f),
            TokenError::WrongTokenType(s) => TokenErrorView::WrongTokenType(s@),
            TokenError::NonEmptyKeyslots => TokenErrorView::NonEmptyKeyslots,
            TokenError::InvalidActivationName(s) => TokenErrorView::InvalidActivationName(s@),
            TokenError::InvalidUuid(f, s) => TokenErrorView::InvalidUuid(*f, s@),
        }
    }
}

/// A name devicemapper accepts: ASCII, not empty, at most `DM_NAME_MAX`
/// characters.
pub open spec fn dm_name_ok(s: Seq<char>) -> bool {
    &&& 0 < s.len() <= DM_NAME_MAX
    &&& forall|i: int| 0 <= i < s.len() ==> (#[trigger] s[i]) as u32 <= 0x7f
}

/// The keys a Stratis token may have.
pub open spec fn known_key(k: Seq<char>) -> bool {
    ||| k == TOKEN_TYPE_KEY@
    ||| k == TOKEN_KEYSLOTS_KEY@
    ||| k == STRATIS_TOKEN_DEVNAME_KEY@
    ||| k == STRATIS_TOKEN_POOL_UUID_KEY@
    ||| k == STRATIS_TOKEN_DEV_UUID_KEY@
    ||| k == STRATIS_TOKEN_POOLNAME_KEY@
}

/// The value of the last member named `key`, if any.
pub open spec fn last_value(e: Seq<(Seq<char>, JsonView)>, key: Seq<char>) -> Option<JsonView>
    decreases e.len(),
{
    if e.len() == 0 {
        None
    } else if e.last().0 == key {
        Some(e.last().1)
    } else {
        last_value(e.drop_last(), key)
    }
}

/// The first member name that a Stratis token may not have, if any.
pub open spec fn first_unknown(e: Seq<(Seq<char>, JsonView)>) -> Option<Seq<char>>
    decreases e.len(),
{
    if e.len() == 0 {
        None
    } else {
        match first_unknown(e.drop_last()) {
            Some(k) => Some(k),
            None => if known_key(e.last().0) {
                None
            } else {
                Some(e.last().0)
            },
        }
    }
}

/// The UUID held by the member `key`, read as the field `f`.
pub open spec fn parsed_uuid(e: Seq<(Seq<char>, JsonView)>, key: Seq<char>, f: TokenField) -> Result<u128, TokenErrorView> {
    match last_value(e, key) {
        None => Err(TokenErrorView::MissingField(f)),
        Some(JsonView::Str(s)) => match uuid_parse(s) {
            Some(u) => Ok(u),
            None => Err(TokenErrorView::InvalidUuid(f, s)),
        },
        Some(_) => Err(TokenErrorView::WrongValueType(f)),
    }
}

/// The token that a JSON object describes, or why it describes none. The
/// checks are made in this order: member names, type, key slots, activation
/// name, pool UUID, device UUID, pool name. A member given twice counts
/// with its last value.
pub open spec fn parse_token(e: Seq<(Seq<char>, JsonView)>) -> Result<TokenView, TokenErrorView> {
    if let Some(k) = first_unknown(e) {
        Err(TokenErrorView::UnrecognizedKey(k))
    } else {
        match last_value(e, TOKEN_TYPE_KEY@) {
            None => Err(TokenErrorView::MissingField(TokenField::Type)),
            Some(JsonView::Str(s)) if s != STRATIS_TOKEN_TYPE@ => Err(TokenErrorView::WrongTokenType(s)),
            Some(JsonView::Str(_)) => match last_value(e, TOKEN_KEYSLOTS_KEY@) {
                None => Err(TokenErrorView::MissingField(TokenField::Keyslots)),
                Some(JsonView::Array(n)) if n != 0 => Err(TokenErrorView::NonEmptyKeyslots),
                Some(JsonView::Array(_)) => match last_value(e, STRATIS_TOKEN_DEVNAME_KEY@) {
                    None => Err(TokenErrorView::MissingField(TokenField::ActivationName)),
                    Some(JsonView::Str(d)) if !dm_name_ok(d) => Err(TokenErrorView::InvalidActivationName(d)),
                    Some(JsonView::Str(d)) => match parsed_uuid(e, STRATIS_TOKEN_POOL_UUID_KEY@, TokenField::PoolUuid) {
                        Err(err) => Err(err),
                        Ok(p) => match parsed_uuid(e, STRATIS_TOKEN_DEV_UUID_KEY@, TokenField::DeviceUuid) {
                            Err(err) => Err(err),
                            Ok(du) => match last_value(e, STRATIS_TOKEN_POOLNAME_KEY@) {
                                Some(JsonView::Str(n)) => Ok(TokenView {
                                    devname: d,
                                    identifiers: StratisIdentifiers { pool_uuid: PoolUuid(p), device_uuid: DevUuid(du) },
                                    pool_name: Some(n),
                                }),
                                Some(_) => Err(TokenErrorView::WrongValueType(TokenField::PoolName)),
                                None => Ok(TokenView {
                                    devname: d,
                                    identifiers: StratisIdentifiers { pool_uuid: PoolUuid(p), device_uuid: DevUuid(du) },
                                    pool_name: None,
                                }),
                            },
                        },
                    },
                    Some(_) => Err(TokenErrorView::WrongValueType(TokenField::ActivationName)),
                },
                Some(_) => Err(TokenErrorView::WrongValueType(TokenField::Keyslots)),
            },
            Some(_) => Err(TokenErrorView::WrongValueType(TokenField::Type)),
        }
    }
}

/// The members a Stratis token is written with, given the texts of its two
/// UUIDs.
pub open spec fn token_entries(t: TokenView, pool_text: Seq<char>, dev_text: Seq<char>) -> Seq<(Seq<char>, JsonView)> {
    let base = seq![
        (TOKEN_TYPE_KEY@, JsonView::Str(STRATIS_TOKEN_TYPE@)),
        (TOKEN_KEYSLOTS_KEY@, JsonView::Array(0)),
        (STRATIS_TOKEN_DEVNAME_KEY@, JsonView::Str(t.devname)),
        (STRATIS_TOKEN_POOL_UUID_KEY@, JsonView::Str(pool_text)),
        (STRATIS_TOKEN_DEV_UUID_KEY@, JsonView::Str(dev_text)),
    ];
    match t.pool_name {
        Some(n) => base.push((STRATIS_TOKEN_POOLNAME_KEY@, JsonView::Str(n))),
        None => base,
    }
}

proof fn lemma_keys_distinct()
    ensures
        TOKEN_TYPE_KEY@ != TOKEN_KEYSLOTS_KEY@,
        TOKEN_TYPE_KEY@ != STRATIS_TOKEN_DEVNAME_KEY@,
        TOKEN_TYPE_KEY@ != STRATIS_TOKEN_POOL_UUID_KEY@,
        TOKEN_TYPE_KEY@ != STRATIS_TOKEN_DEV_UUID_KEY@,
        TOKEN_TYPE_KEY@ != STRATIS_TOKEN_POOLNAME_KEY@,
        TOKEN_KEYSLOTS_KEY@ != STRATIS_TOKEN_DEVNAME_KEY@,
        TOKEN_KEYSLOTS_KEY@ != STRATIS_TOKEN_POOL_UUID_KEY@,
        TOKEN_KEYSLOTS_KEY@ != STRATIS_TOKEN_DEV_UUID_KEY@,
        TOKEN_KEYSLOTS_KEY@ != STRATIS_TOKEN_POOLNAME_KEY@,
        STRATIS_TOKEN_DEVNAME_KEY@ != STRATIS_TOKEN_POOL_UUID_KEY@,
        STRATIS_TOKEN_DEVNAME_KEY@ != STRATIS_TOKEN_DEV_UUID_KEY@,
        STRATIS_TOKEN_DEVNAME_KEY@ != STRATIS_TOKEN_POOLNAME_KEY@,
        STRATIS_TOKEN_POOL_UUID_KEY@ != STRATIS_TOKEN_DEV_UUID_KEY@,
        STRATIS_TOKEN_POOL_UUID_KEY@ != STRATIS_TOKEN_POOLNAME_KEY@,
        STRATIS_TOKEN_DEV_UUID_KEY@ != STRATIS_TOKEN_POOLNAME_KEY@,
{
    reveal_strlit("type");
    reveal_strlit("keyslots");
    reveal_strlit("activation_name");
    reveal_strlit("pool_uuid");
    reveal_strlit("device_uuid");
    reveal_strlit("pool_name");
    assert(TOKEN_TYPE_KEY@.len() != TOKEN_KEYSLOTS_KEY@.len());
    assert(TOKEN_TYPE_KEY@.len() != STRATIS_TOKEN_DEVNAME_KEY@.len());
    assert(TOKEN_TYPE_KEY@.len() != STRATIS_TOKEN_POOL_UUID_KEY@.len());
    assert(TOKEN_TYPE_KEY@.len() != STRATIS_TOKEN_DEV_UUID_KEY@.len());
    assert(TOKEN_TYPE_KEY@.len() != STRATIS_TOKEN_POOLNAME_KEY@.len());
    assert(TOKEN_KEYSLOTS_KEY@.len() != STRATIS_TOKEN_DEVNAME_KEY@.len());
    assert(TOKEN_KEYSLOTS_KEY@[0] != STRATIS_TOKEN_POOL_UUID_KEY@[0]);
    assert(TOKEN_KEYSLOTS_KEY@.len() != STRATIS_TOKEN_DEV_UUID_KEY@.len());
    assert(TOKEN_KEYSLOTS_KEY@[0] != STRATIS_TOKEN_POOLNAME_KEY@[0]);
    assert(STRATIS_TOKEN_DEVNAME_KEY@.len() != STRATIS_TOKEN_POOL_UUID_KEY@.len());
    assert(STRATIS_TOKEN_DEVNAME_KEY@.len() != STRATIS_TOKEN_DEV_UUID_KEY@.len());
    assert(STRATIS_TOKEN_DEVNAME_KEY@.len() != STRATIS_TOKEN_POOLNAME_KEY@.len());
    assert(STRATIS_TOKEN_POOL_UUID_KEY@.len() != STRATIS_TOKEN_DEV_UUID_KEY@.len());
    assert(STRATIS_TOKEN_POOL_UUID_KEY@[5] != STRATIS_TOKEN_POOLNAME_KEY@[5]);
    assert(STRATIS_TOKEN_DEV_UUID_KEY@.len() != STRATIS_TOKEN_POOLNAME_KEY@.len());
}

proof fn lemma_scan_step(e: Seq<(Seq<char>, JsonView)>, i: int, key: Seq<char>)
    requires
        0 <= i < e.len(),
    ensures
        last_value(e.take(i + 1), key) == if e[i].0 == key {
            Some(e[i].1)
        } else {
            last_value(e.take(i), key)
        },
        first_unknown(e.take(i + 1)) == match first_unknown(e.take(i)) {
            Some(k) => Some(k),
            None => if known_key(e[i].0) {
                None
            } else {
                Some(e[i].0)
            },
        },
{
    assert(e.take(i + 1).drop_last() =~= e.take(i));
}

/// Whether the text is a name devicemapper accepts.
pub fn dm_name_valid(s: &str) -> (r: bool)
    ensures
        r == dm_name_ok(s@),
{
    let n = s.unicode_len();
    if n == 0 || n > DM_NAME_MAX {
        return false;
    }
    let mut i: usize = 0;
    while i < n
        invariant
            n == s@.len(),
            i <= n,
            forall|j: int| 0 <= j < i ==> (#[trigger] s@[j]) as u32 <= 0x7f,
        decreases n - i,
    {
        if s.get_char(i) as u32 > 0x7f {
            return false;
        }
        i = i + 1;
    }
    true
}

impl StratisLuks2Token {
    /// Read a Stratis token from the members of a JSON object.
    pub fn deserialize(entries: &Vec<(String, JsonValue)>) -> (r: Result<StratisLuks2Token, TokenError>)
        ensures
            match parse_token(entries_view(entries@)) {
                Ok(t) => r matches Ok(tok) && tok@ == t,
                Err(e) => r matches Err(err) && err@ == e,
            },
    {
        let ghost ev = entries_view(entries@);
        proof {
            lemma_keys_distinct();
            assert(ev.take(0) =~= Seq::<(Seq<char>, JsonView)>::empty());
        }
        let mut token_type: Option<&JsonValue> = None;
        let mut keyslots: Option<&JsonValue> = None;
        let mut d_name: Option<&JsonValue> = None;
        let mut p_uuid: Option<&JsonValue> = None;
        let mut d_uuid: Option<&JsonValue> = None;
        let mut p_name: Option<&JsonValue> = None;
        let mut i: usize = 0;
        while i < entries.len()
            invariant
                i <= entries@.len(),
                ev == entries_view(entries@),
                first_unknown(ev.take(i as int)) is None,
                opt_json_view(token_type) == last_value(ev.take(i as int), TOKEN_TYPE_KEY@),
                opt_json_view(keyslots) == last_value(ev.take(i as int), TOKEN_KEYSLOTS_KEY@),
                opt_json_view(d_name) == last_value(ev.take(i as int), STRATIS_TOKEN_DEVNAME_KEY@),
                opt_json_view(p_uuid) == last_value(ev.take(i as int), STRATIS_TOKEN_POOL_UUID_KEY@),
                opt_json_view(d_uuid) == last_value(ev.take(i as int), STRATIS_TOKEN_DEV_UUID_KEY@),
                opt_json_view(p_name) == last_value(ev.take(i as int), STRATIS_TOKEN_POOLNAME_KEY@),
                TOKEN_TYPE_KEY@ != TOKEN_KEYSLOTS_KEY@,
                TOKEN_TYPE_KEY@ != STRATIS_TOKEN_DEVNAME_KEY@,
                TOKEN_TYPE_KEY@ != STRATIS_TOKEN_POOL_UUID_KEY@,
                TOKEN_TYPE_KEY@ != STRATIS_TOKEN_DEV_UUID_KEY@,
                TOKEN_TYPE_KEY@ != STRATIS_TOKEN_POOLNAME_KEY@,
                TOKEN_KEYSLOTS_KEY@ != STRATIS_TOKEN_DEVNAME_KEY@,
                TOKEN_KEYSLOTS_KEY@ != STRATIS_TOKEN_POOL_UUID_KEY@,
                TOKEN_KEYSLOTS_KEY@ != STRATIS_TOKEN_DEV_UUID_KEY@,
                TOKEN_KEYSLOTS_KEY@ != STRATIS_TOKEN_POOLNAME_KEY@,
                STRATIS_TOKEN_DEVNAME_KEY@ != STRATIS_TOKEN_POOL_UUID_KEY@,
                STRATIS_TOKEN_DEVNAME_KEY@ != STRATIS_TOKEN_DEV_UUID_KEY@,
                STRATIS_TOKEN_DEVNAME_KEY@ != STRATIS_TOKEN_POOLNAME_KEY@,
                STRATIS_TOKEN_POOL_UUID_KEY@ != STRATIS_TOKEN_DEV_UUID_KEY@,
                STRATIS_TOKEN_POOL_UUID_KEY@ != STRATIS_TOKEN_POOLNAME_KEY@,
                STRATIS_TOKEN_DEV_UUID_KEY@ != STRATIS_TOKEN_POOLNAME_KEY@,
            decreases entries@.len() - i,
        {
            proof {
                lemma_scan_step(ev, i as int, TOKEN_TYPE_KEY@);
                lemma_scan_step(ev, i as int, TOKEN_KEYSLOTS_KEY@);
                lemma_scan_step(ev, i as int, STRATIS_TOKEN_DEVNAME_KEY@);
                lemma_scan_step(ev, i as int, STRATIS_TOKEN_POOL_UUID_KEY@);
                lemma_scan_step(ev, i as int, STRATIS_TOKEN_DEV_UUID_KEY@);
                lemma_scan_step(ev, i as int, STRATIS_TOKEN_POOLNAME_KEY@);
            }
            let k = entries[i].0.as_str();
            let v = &entries[i].1;
            if crate::table::str_eq(k, TOKEN_TYPE_KEY) {
                token_type = Some(v);
            } else if crate::table::str_eq(k, TOKEN_KEYSLOTS_KEY) {
                keyslots = Some(v);
            } else if crate::table::str_eq(k, STRATIS_TOKEN_DEVNAME_KEY) {
                d_name = Some(v);
            } else if crate::table::str_eq(k, STRATIS_TOKEN_POOL_UUID_KEY) {
                p_uuid = Some(v);
            } else if crate::table::str_eq(k, STRATIS_TOKEN_DEV_UUID_KEY) {
                d_uuid = Some(v);
            } else if crate::table::str_eq(k, STRATIS_TOKEN_POOLNAME_KEY) {
                p_name = Some(v);
            } else {
                proof {
                    assert(first_unknown(ev.take(i as int + 1)) == Some(ev[i as int].0));
                    assert(ev.take(i as int + 1).len() <= ev.len());
                    lemma_unknown_sticks(ev, i as int + 1);
                }
                return Err(TokenError::UnrecognizedKey(k.to_owned()));
            }
            i = i + 1;
        }
        proof {
            assert(ev.take(ev.len() as int) =~= ev);
        }
        match token_type {
            None => {
                return Err(TokenError::MissingField(TokenField::Type));
            },
            Some(JsonValue::Str(s)) => {
                if !crate::table::str_eq(s.as_str(), STRATIS_TOKEN_TYPE) {
                    return Err(TokenError::WrongTokenType(s.clone()));
                }
            },
            Some(_) => {
                return Err(TokenError::WrongValueType(TokenField::Type));
            },
        }
        match keyslots {
            None => {
                return Err(TokenError::MissingField(TokenField::Keyslots));
            },
            Some(JsonValue::Array(n)) => {
                if *n != 0 {
                    return Err(TokenError::NonEmptyKeyslots);
                }
            },
            Some(_) => {
                return Err(TokenError::WrongValueType(TokenField::Keyslots));
            },
        }
        let devname = match d_name {
            None => {
                return Err(TokenError::MissingField(TokenField::ActivationName));
            },
            Some(JsonValue::Str(s)) => {
                if !dm_name_valid(s.as_str()) {
                    return Err(TokenError::InvalidActivationName(s.clone()));
                }
                s.clone()
            },
            Some(_) => {
                return Err(TokenError::WrongValueType(TokenField::ActivationName));
            },
        };
        let pool_uuid = match read_uuid(p_uuid, TokenField::PoolUuid) {
            Ok(u) => u,
            Err(e) => {
                return Err(e);
            },
        };
        let device_uuid = match read_uuid(d_uuid, TokenField::DeviceUuid) {
            Ok(u) => u,
            Err(e) => {
                return Err(e);
            },
        };
        let pool_name = match p_name {
            Some(JsonValue::Str(s)) => Some(s.clone()),
            Some(_) => {
                return Err(TokenError::WrongValueType(TokenField::PoolName));
            },
            None => None,
        };
        Ok(
            StratisLuks2Token {
                devname,
                identifiers: StratisIdentifiers {
                    pool_uuid: PoolUuid(pool_uuid),
                    device_uuid: DevUuid(device_uuid),
                },
                pool_name,
            },
        )
    }

    /// The members the token is written with: type, empty key slots,
    /// activation name, the two UUIDs as hyphenated text, and the pool name
    /// when there is one. Reading them back gives the token.
    pub fn serialize(&self) -> (r: Vec<(String, JsonValue)>)
        requires
            dm_name_ok(self.devname@),
        ensures
            entries_view(r@) == token_entries(
                self@,
                uuid_hyphenated_text(self.identifiers.pool_uuid.0),
                uuid_hyphenated_text(self.identifiers.device_uuid.0),
            ),
            parse_token(entries_view(r@)) == Ok::<TokenView, TokenErrorView>(self@),
    {
        let mut r: Vec<(String, JsonValue)> = Vec::new();
        let pool_text = uuid_hyphenated(self.identifiers.pool_uuid.0);
        let dev_text = uuid_hyphenated(self.identifiers.device_uuid.0);
        r.push((TOKEN_TYPE_KEY.to_owned(), JsonValue::Str(STRATIS_TOKEN_TYPE.to_owned())));
        r.push((TOKEN_KEYSLOTS_KEY.to_owned(), JsonValue::Array(0)));
        r.push((STRATIS_TOKEN_DEVNAME_KEY.to_owned(), JsonValue::Str(self.devname.clone())));
        r.push((STRATIS_TOKEN_POOL_UUID_KEY.to_owned(), JsonValue::Str(pool_text)));
        r.push((STRATIS_TOKEN_DEV_UUID_KEY.to_owned(), JsonValue::Str(dev_text)));
        match &self.pool_name {
            Some(n) => {
                r.push((STRATIS_TOKEN_POOLNAME_KEY.to_owned(), JsonValue::Str(n.clone())));
            },
            None => {},
        }
        let ghost pt = uuid_hyphenated_text(self.identifiers.pool_uuid.0);
        let ghost dt = uuid_hyphenated_text(self.identifiers.device_uuid.0);
        proof {
            assert(entries_view(r@) =~= token_entries(self@, pt, dt));
            lemma_token_entries_parse(self@, pt, dt);
        }
        r
    }
}

/// The view of an optional reference to a JSON value.
pub open spec fn opt_json_view(v: Option<&JsonValue>) -> Option<JsonView> {
    match v {
        Some(x) => Some(x@),
        None => None,
    }
}

/// Once a prefix holds a member name a token may not have, every longer
/// prefix reports the same one.
proof fn lemma_unknown_sticks(e: Seq<(Seq<char>, JsonView)>, k: int)
    requires
        0 <= k <= e.len(),
        first_unknown(e.take(k)) is Some,
    ensures
        first_unknown(e) == first_unknown(e.take(k)),
    decreases e.len() - k,
{
    if k < e.len() {
        lemma_scan_step(e, k, TOKEN_TYPE_KEY@);
        lemma_unknown_sticks(e, k + 1);
    } else {
        assert(e.take(k) =~= e);
    }
}

/// The written members of a token read back as the token, given that the
/// UUID texts parse back to the UUIDs.
proof fn lemma_token_entries_parse(t: TokenView, pool_text: Seq<char>, dev_text: Seq<char>)
    requires
        dm_name_ok(t.devname),
        uuid_parse(pool_text) == Some(t.identifiers.pool_uuid.0),
        uuid_parse(dev_text) == Some(t.identifiers.device_uuid.0),
    ensures
        parse_token(token_entries(t, pool_text, dev_text)) == Ok::<TokenView, TokenErrorView>(t),
{
    lemma_keys_distinct();
    reveal_strlit("stratis");
    let e = token_entries(t, pool_text, dev_text);
    let n = e.len() as int;
    assert forall|i: int| 0 <= i <= n implies first_unknown(#[trigger] e.take(i)) is None by {
        lemma_prefix_known(e, i);
    }
    assert(e.take(n) =~= e);
    lemma_last_values(t, pool_text, dev_text);
}

proof fn lemma_prefix_known(e: Seq<(Seq<char>, JsonView)>, i: int)
    requires
        0 <= i <= e.len(),
        forall|j: int| 0 <= j < e.len() ==> known_key(#[trigger] e[j].0),
    ensures
        first_unknown(e.take(i)) is None,
    decreases i,
{
    if i > 0 {
        lemma_prefix_known(e, i - 1);
        lemma_scan_step(e, i - 1, TOKEN_TYPE_KEY@);
    } else {
        assert(e.take(0) =~= Seq::<(Seq<char>, JsonView)>::empty());
    }
}

proof fn lemma_last_values(t: TokenView, pool_text: Seq<char>, dev_text: Seq<char>)
    ensures
        ({
            let e = token_entries(t, pool_text, dev_text);
            &&& last_value(e, TOKEN_TYPE_KEY@) == Some(JsonView::Str(STRATIS_TOKEN_TYPE@))
            &&& last_value(e, TOKEN_KEYSLOTS_KEY@) == Some(JsonView::Array(0))
            &&& last_value(e, STRATIS_TOKEN_DEVNAME_KEY@) == Some(JsonView::Str(t.devname))
            &&& last_value(e, STRATIS_TOKEN_POOL_UUID_KEY@) == Some(JsonView::Str(pool_text))
            &&& last_value(e, STRATIS_TOKEN_DEV_UUID_KEY@) == Some(JsonView::Str(dev_text))
            &&& last_value(e, STRATIS_TOKEN_POOLNAME_KEY@) == match t.pool_name {
                Some(n) => Some(JsonView::Str(n)),
                None => None,
            }
        }),
{
    lemma_keys_distinct();
    let e = token_entries(t, pool_text, dev_text);
    reveal_with_fuel(last_value, 7);
    let b = seq![
        (TOKEN_TYPE_KEY@, JsonView::Str(STRATIS_TOKEN_TYPE@)),
        (TOKEN_KEYSLOTS_KEY@, JsonView::Array(0)),
        (STRATIS_TOKEN_DEVNAME_KEY@, JsonView::Str(t.devname)),
        (STRATIS_TOKEN_POOL_UUID_KEY@, JsonView::Str(pool_text)),
        (STRATIS_TOKEN_DEV_UUID_KEY@, JsonView::Str(dev_text)),
    ];
    assert(b.drop_last() =~= b.take(4));
    assert(b.take(4).drop_last() =~= b.take(3));
    assert(b.take(3).drop_last() =~= b.take(2));
    assert(b.take(2).drop_last() =~= b.take(1));
    assert(b.take(1).drop_last() =~= b.take(0));
    match t.pool_name {
        Some(n) => {
            assert(e.drop_last() =~= b);
        },
        None => {},
    }
}

/// The UUID held by a member that must be a UUID text.
fn read_uuid(v: Option<&JsonValue>, f: TokenField) -> (r: Result<u128, TokenError>)
    ensures
        match v {
            None => r matches Err(e) && e@ == TokenErrorView::MissingField(f),
            Some(JsonValue::Str(s)) => match uuid_parse(s@) {
                Some(u) => r == Ok::<u128, TokenError>(u),
                None => r matches Err(e) && e@ == TokenErrorView::InvalidUuid(f, s@),
            },
            Some(_) => r matches Err(e) && e@ == TokenErrorView::WrongValueType(f),
        },
{
    match v {
        None => Err(TokenError::MissingField(f)),
        Some(JsonValue::Str(s)) => match parse_uuid(s.as_str()) {
            Some(u) => Ok(u),
            None => Err(TokenError::InvalidUuid(f, s.clone())),
        },
        Some(_) => Err(TokenError::WrongValueType(f)),
    }
}

/// Whether a JSON value is a Stratis token; `None` stands for a value that
/// is not an object.
pub fn stratis_token_is_valid(json: Option<&Vec<(String, JsonValue)>>) -> (r: bool)
    ensures
        r == match json {
            Some(e) => parse_token(entries_view(e@)) is Ok,
            None => false,
        },
{
    match json {
        Some(e) => StratisLuks2Token::deserialize(e).is_ok(),
        None => false,
    }
}

/// Whether a JSON value is a keyring token: an object whose type member is
/// the text of the keyring token type. `None` stands for a value that is not
/// an object.
pub fn luks2_token_type_is_valid(json: Option<&Vec<(String, JsonValue)>>) -> (r: bool)
    ensures
        r == match json {
            Some(e) => last_value(entries_view(e@), TOKEN_TYPE_KEY@) == Some(JsonView::Str(LUKS2_TOKEN_TYPE@)),
            None => false,
        },
{
    let e = match json {
        Some(e) => e,
        None => {
            return false;
        },
    };
    let ghost ev = entries_view(e@);
    let mut found: Option<&JsonValue> = None;
    let mut i: usize = 0;
    proof {
        assert(ev.take(0) =~= Seq::<(Seq<char>, JsonView)>::empty());
    }
    while i < e.len()
        invariant
            i <= e@.len(),
            ev == entries_view(e@),
            opt_json_view(found) == last_value(ev.take(i as int), TOKEN_TYPE_KEY@),
        decreases e@.len() - i,
    {
        proof {
            lemma_scan_step(ev, i as int, TOKEN_TYPE_KEY@);
        }
        if crate::table::str_eq(e[i].0.as_str(), TOKEN_TYPE_KEY) {
            found = Some(&e[i].1);
        }
        i = i + 1;
    }
    proof {
        assert(ev.take(ev.len() as int) =~= ev);
    }
    match found {
        Some(JsonValue::Str(s)) => crate::table::str_eq(s.as_str(), LUKS2_TOKEN_TYPE),
        _ => false,
    }
}

/// Whether the tokens of a LUKS2 device mark it as an encrypted Stratis
/// device: a valid Stratis token, and a keyring token or a Clevis token,
/// the keyring token, when present, of the keyring type. A token is `None`
/// when the device has none, `Some(None)` when it is not a JSON object.
pub fn is_encrypted_stratis_device(
    stratis_token: Option<Option<&Vec<(String, JsonValue)>>>,
    luks_token: Option<Option<&Vec<(String, JsonValue)>>>,
    clevis_token_present: bool,
) -> (r: bool)
    ensures
        r == (stratis_token matches Some(st) && (luks_token is Some || clevis_token_present) && (luks_token matches Some(
            lt,
        ) ==> match lt {
            Some(e) => last_value(entries_view(e@), TOKEN_TYPE_KEY@) == Some(JsonView::Str(LUKS2_TOKEN_TYPE@)),
            None => false,
        }) && match st {
            Some(e) => parse_token(entries_view(e@)) is Ok,
            None => false,
        }),
{
    let st = match stratis_token {
        Some(st) => st,
        None => {
            return false;
        },
    };
    if luks_token.is_none() && !clevis_token_present {
        return false;
    }
    match luks_token {
        Some(lt) => {
            if !luks2_token_type_is_valid(lt) {
                return false;
            }
        },
        None => {},
    }
    stratis_token_is_valid(st)
}

/// The devicemapper name of an encrypted device: the simple texts of the
/// pool UUID and the device UUID joined by a hyphen.
pub fn name_from_uuids(pool_uuid: &PoolUuid, dev_uuid: &DevUuid) -> (r: String)
    ensures
        r@ == uuid_simple_text(pool_uuid.0) + seq!['-'] + uuid_simple_text(dev_uuid.0),
        dm_name_ok(r@),
{
    let p = uuid_simple(pool_uuid.0);
    let d = uuid_simple(dev_uuid.0);
    let mut r = p;
    r.append("-");
    proof {
        reveal_strlit("-");
    }
    r.append(d.as_str());
    proof {
        lemma_simple_text_ascii(pool_uuid.0);
        lemma_simple_text_ascii(dev_uuid.0);
    }
    r
}

proof fn lemma_simple_text_ascii(u: u128)
    ensures
        uuid_simple_text(u).len() == 32,
        forall|i: int| 0 <= i < 32 ==> (#[trigger] uuid_simple_text(u)[i]) as u32 <= 0x7f,
{
    assert forall|i: int| 0 <= i < 32 implies (#[trigger] uuid_simple_text(u)[i]) as u32 <= 0x7f by {
        let d = (u as int / pow(16, (31 - i) as nat)) % 16;
        assert(0 <= d < 16);
        assert(uuid_simple_text(u)[i] == crate::outside::hex_digit(d));
    }
}

/// Round a number of bytes up to a whole number of LUKS2 sectors.
pub fn ceiling_sector_size_alignment(bytes: Bytes) -> (r: Bytes)
    requires
        bytes.0 + LUKS2_SECTOR_SIZE - 1 <= u128::MAX,
    ensures
        r.0 % LUKS2_SECTOR_SIZE == 0,
        bytes.0 <= r.0 < bytes.0 + LUKS2_SECTOR_SIZE,
{
    let round: u128 = LUKS2_SECTOR_SIZE - 1;
    let v = bytes.0 + round;
    let r = v - v % LUKS2_SECTOR_SIZE;
    Bytes(r)
}

/// The bytes that the LUKS2 metadata occupies at the start of an encrypted
/// device: two copies of the JSON area and the key slot area rounded up to
/// whole LUKS2 sectors.
pub fn crypt_metadata_size() -> (r: Bytes)
    ensures
        r.0 == 2 * DEFAULT_CRYPT_METADATA_SIZE + DEFAULT_CRYPT_KEYSLOTS_SIZE,
{
    let keyslots = ceiling_sector_size_alignment(Bytes(DEFAULT_CRYPT_KEYSLOTS_SIZE));
    assert(DEFAULT_CRYPT_KEYSLOTS_SIZE % LUKS2_SECTOR_SIZE == 0);
    Bytes(2 * DEFAULT_CRYPT_METADATA_SIZE + keyslots.0)
}

} // verus!
