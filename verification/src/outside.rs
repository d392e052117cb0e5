use vstd::prelude::*;
use rand::Rng;
use rand::seq::IteratorRandom;
use sha2::Digest;
use crate::clevis::{Json, JsonV};
use vstd::arithmetic::power::pow;

verus! {

/// The value that `uuid::Uuid::parse_str` gives for a text: the UUID as a
/// 128-bit number, or `None` when the text is not a UUID.
pub uninterp spec fn uuid_parse(s: Seq<char>) -> Option<u128>;

/// The lowercase hexadecimal digit of a value below 16.
pub open spec fn hex_digit(d: int) -> char {
    if d < 10 {
        (d + 48) as char
    } else {
        (d + 87) as char
    }
}

/// The simple text of a UUID given as a number: its 32 lowercase
/// hexadecimal digits, most significant first.
pub open spec fn uuid_simple_text(u: u128) -> Seq<char> {
    Seq::new(32, |i: int| hex_digit((u as int / pow(16, (31 - i) as nat)) % 16))
}

/// The hyphenated text of a UUID given as a number: the simple text with a
/// hyphen after the 8th, 12th, 16th and 20th digits.
pub open spec fn uuid_hyphenated_text(u: u128) -> Seq<char> {
    let h = uuid_simple_text(u);
    h.subrange(0, 8) + seq!['-'] + h.subrange(8, 12) + seq!['-'] + h.subrange(12, 16) + seq!['-']
        + h.subrange(16, 20) + seq!['-'] + h.subrange(20, 32)
}

/// A random (version 4) UUID, from `uuid::Uuid::new_v4`, as a number.
/// Nothing is claimed of the value. The crate panics when the operating
/// system's random source fails; no `requires` can rule out that state of
/// the system, so that case is left open here.
#[verifier::external_body]
pub(crate) fn new_uuid_v4() -> u128 {
    uuid::Uuid::new_v4().as_u128()
}

/// The current time in whole seconds since the Unix epoch, from
/// `chrono::Utc::now().timestamp()`. Nothing is claimed of the value.
/// `Utc::now` panics when the system clock reads a time before the Unix
/// epoch; no `requires` can rule out a state of the clock, so that case is
/// left open here, as it is wherever the engine reads the time.
#[verifier::external_body]
pub(crate) fn now_timestamp() -> i64 {
    chrono::Utc::now().timestamp()
}

/// A random number from `rand::random::<u32>`. Nothing is claimed of it.
/// The thread's generator panics when the operating system's random source
/// fails to seed it; no `requires` can rule out that state of the system,
/// so that case is left open here.
#[verifier::external_body]
pub(crate) fn random_u32() -> u32 {
    rand::random::<u32>()
}

/// `rand::Rng::gen_ratio` on the operating system's generator: true with
/// probability numerator/denominator. The crate panics when the denominator
/// is zero or below the numerator, so those inputs are excluded; it returns
/// true without drawing when the two are equal. Drawing panics when the
/// operating system's random source fails; no `requires` can rule out that
/// state of the system, so that case is left open here.
#[verifier::external_body]
pub(crate) fn os_rng_gen_ratio(numerator: u32, denominator: u32) -> (r: bool)
    requires
        0 < denominator,
        numerator <= denominator,
    ensures
        numerator == denominator ==> r,
{
    rand::rngs::OsRng.gen_ratio(numerator, denominator)
}

/// `uuid::Uuid::parse_str`: the UUID the text denotes, if any. The contract
/// names the result; what the crate accepts (several textual forms) is not
/// restated.
#[verifier::external_body]
pub(crate) fn parse_uuid(s: &str) -> (r: Option<u128>)
    ensures
        r == uuid_parse(s@),
{
    match uuid::Uuid::parse_str(s) {
        Ok(u) => Some(u.as_u128()),
        Err(_) => None,
    }
}

/// The hyphenated text of a UUID, from `uuid::Uuid::hyphenated` (whose
/// `Display` writes lowercase digits of the big-endian bytes that
/// `Uuid::from_u128` takes). The crate documents that `parse_str` accepts
/// every form it generates, so parsing the text gives the UUID back.
#[verifier::external_body]
pub(crate) fn uuid_hyphenated(u: u128) -> (r: String)
    ensures
        r@ == uuid_hyphenated_text(u),
        uuid_parse(r@) == Some(u),
{
    uuid::Uuid::from_u128(u).hyphenated().to_string()
}

/// The simple text (32 lowercase hexadecimal digits of the big-endian
/// bytes, no hyphens) of a UUID, from `uuid::Uuid::simple`. The crate
/// documents that `parse_str` accepts every form it generates, so parsing
/// the text gives the UUID back.
#[verifier::external_body]
pub(crate) fn uuid_simple(u: u128) -> (r: String)
    ensures
        r@ == uuid_simple_text(u),
        uuid_parse(r@) == Some(u),
{
    uuid::Uuid::from_u128(u).simple().to_string()
}

/// The text, as bytes, that `serde_json::to_vec` writes for the
/// `serde_json::Value` that a JSON value stands for (in which a number held
/// by a text that is no JSON number is null).
pub uninterp spec fn json_bytes(j: JsonV) -> Seq<u8>;

/// The JSON value that `serde_json::from_slice` reads from bytes, if they
/// hold one.
pub uninterp spec fn json_parsed(b: Seq<u8>) -> Option<JsonV>;

/// The SHA-256 digest of bytes, from `sha2::Sha256`.
pub uninterp spec fn sha256_digest(b: Seq<u8>) -> Seq<u8>;

/// The bytes whose unpadded URL-safe base64 text is `s`, if there are any
/// (there is at most one such list of bytes, see
/// `lemma_base64url_nopad_injective`).
pub open spec fn base64url_decoded(s: Seq<char>) -> Option<Seq<u8>> {
    if exists|b: Seq<u8>| base64url_nopad(b) == s {
        Some(choose|b: Seq<u8>| base64url_nopad(b) == s)
    } else {
        None
    }
}

/// The character of a 6-bit value in the URL-safe base64 alphabet.
pub open spec fn b64url_char(v: int) -> char {
    if v < 26 {
        (v + 65) as char
    } else if v < 52 {
        (v + 71) as char
    } else if v < 62 {
        (v - 4) as char
    } else if v == 62 {
        '-'
    } else {
        '_'
    }
}

/// The URL-safe base64 text of bytes, without padding: each group of three
/// bytes gives four characters, most significant bits first, and a final
/// group of one or two bytes gives two or three.
pub open spec fn base64url_nopad(b: Seq<u8>) -> Seq<char>
    decreases b.len(),
{
    let b0 = b[0] as int;
    let b1 = b[1] as int;
    let b2 = b[2] as int;
    if b.len() == 0 {
        Seq::empty()
    } else if b.len() == 1 {
        seq![b64url_char(b0 / 4), b64url_char((b0 % 4) * 16)]
    } else if b.len() == 2 {
        seq![b64url_char(b0 / 4), b64url_char((b0 % 4) * 16 + b1 / 16), b64url_char((b1 % 16) * 4)]
    } else {
        seq![
            b64url_char(b0 / 4),
            b64url_char((b0 % 4) * 16 + b1 / 16),
            b64url_char((b1 % 16) * 4 + b2 / 64),
            b64url_char(b2 % 64),
        ] + base64url_nopad(b.skip(3))
    }
}

/// The outside JSON value type.
#[verifier::external_type_specification]
#[verifier::external_body]
pub struct ExJsonValue(serde_json::Value);

/// The library's JSON value for a `serde_json::Value`, variant for
/// variant; a number is kept as its `as_u64` value when it has one, and
/// as its text (which `serde_json::Number` parses back to it) otherwise.
#[verifier::external_body]
fn json_from_value(v: serde_json::Value) -> Json {
    match v {
        serde_json::Value::Null => Json::Null,
        serde_json::Value::Bool(b) => Json::Bool(b),
        serde_json::Value::Number(n) => match n.as_u64() {
            Some(u) => Json::Number(u),
            None => Json::Decimal(n.to_string()),
        },
        serde_json::Value::String(s) => Json::Str(s),
        serde_json::Value::Array(a) => Json::Array(a.into_iter().map(json_from_value).collect()),
        serde_json::Value::Object(m) => Json::Object(m.into_iter().map(|(k, x)| (k, json_from_value(x))).collect()),
    }
}

/// The `serde_json::Value` a JSON value stands for, variant for variant; a
/// number held by its text is parsed by `serde_json::Number`, and a text
/// that is no JSON number becomes null.
#[verifier::external_body]
fn value_from_json(j: &Json) -> serde_json::Value {
    match j {
        Json::Null => serde_json::Value::Null,
        Json::Bool(b) => serde_json::Value::Bool(*b),
        Json::Number(n) => serde_json::Value::from(*n),
        Json::Decimal(t) => t.parse().map_or(serde_json::Value::Null, serde_json::Value::Number),
        Json::Str(s) => serde_json::Value::String(s.clone()),
        Json::Array(a) => serde_json::Value::Array(a.iter().map(value_from_json).collect()),
        Json::Object(m) => serde_json::Value::Object(m.iter().map(|(k, x)| (k.clone(), value_from_json(x))).collect()),
    }
}

/// `serde_json::from_slice` into a `serde_json::Value`: the JSON value the
/// bytes hold, if any. The contract names the result.
#[verifier::external_body]
pub(crate) fn parse_json(b: &[u8]) -> (r: Option<Json>)
    ensures
        match r {
            Some(j) => json_parsed(b@) == Some(j@),
            None => json_parsed(b@) is None,
        },
{
    serde_json::from_slice::<serde_json::Value>(b).ok().map(json_from_value)
}

/// `serde_json::to_vec` of the `serde_json::Value` a JSON value stands for;
/// writing a `Value` does not fail, so the empty text is never returned in
/// its place. The contract names the result.
#[verifier::external_body]
pub(crate) fn json_to_bytes(j: &Json) -> (r: Vec<u8>)
    ensures
        r@ == json_bytes(j@),
{
    serde_json::to_vec(&value_from_json(j)).unwrap_or_default()
}

/// The SHA-256 digest of bytes, from `sha2::Sha256::digest`: 32 bytes, the
/// size the crate gives its output. The contract names the digest.
#[verifier::external_body]
pub(crate) fn sha256(b: &[u8]) -> (r: Vec<u8>)
    ensures
        r@ == sha256_digest(b@),
        r@.len() == 32,
{
    sha2::Sha256::digest(b).to_vec()
}

/// `data_encoding::BASE64URL_NOPAD.encode`: the URL-safe base64 text of
/// the bytes, without padding.
#[verifier::external_body]
pub(crate) fn base64url_encode(b: &[u8]) -> (r: String)
    ensures
        r@ == base64url_nopad(b@),
{
    data_encoding::BASE64URL_NOPAD.encode(b)
}

/// `data_encoding::BASE64URL_NOPAD.decode`: the bytes whose unpadded
/// URL-safe base64 text is `s`, if there are any. The specification the
/// crate is built with checks the trailing bits and takes no padding, so it
/// accepts exactly the texts that its encoding writes (`base64url_nopad`)
/// and gives back the bytes they were written from.
#[verifier::external_body]
fn nopad_decode(s: &str) -> (r: Option<Vec<u8>>)
    ensures
        match r {
            Some(v) => base64url_nopad(v@) == s@,
            None => forall|b: Seq<u8>| base64url_nopad(b) != s@,
        },
{
    data_encoding::BASE64URL_NOPAD.decode(s.as_bytes()).ok()
}

/// The bytes that unpadded URL-safe base64 text decodes to, if it is such
/// a text.
pub(crate) fn base64url_decode(s: &str) -> (r: Option<Vec<u8>>)
    ensures
        match r {
            Some(v) => base64url_decoded(s@) == Some(v@),
            None => base64url_decoded(s@) is None,
        },
{
    let r = nopad_decode(s);
    proof {
        if r is Some {
            let c = choose|b: Seq<u8>| base64url_nopad(b) == s@;
            lemma_base64url_nopad_injective(c, r->0@);
        }
    }
    r
}

/// `rand::seq::IteratorRandom::choose_multiple` over the numbers below `n`
/// with the thread's generator: `amount` of them chosen at random, or all
/// of them when there are fewer, each at most once (reservoir sampling, as
/// the crate's source shows). Which ones is not claimed. The thread's
/// generator panics when the operating system's random source fails to
/// seed it; no `requires` can rule out that state of the system, so that
/// case is left open here.
#[verifier::external_body]
pub(crate) fn choose_indices(n: usize, amount: usize) -> (r: Vec<usize>)
    ensures
        r@.len() == if n < amount {
            n
        } else {
            amount
        },
        forall|i: int| 0 <= i < r@.len() ==> r@[i] < n,
        forall|i: int, j: int| 0 <= i < r@.len() && 0 <= j < r@.len() && i != j ==> r@[i] != r@[j],
{
    (0..n).choose_multiple(&mut rand::thread_rng(), amount)
}

/// Different 6-bit values have different characters.
proof fn lemma_b64url_char_injective(x: int, y: int)
    requires
        0 <= x < 64,
        0 <= y < 64,
        b64url_char(x) == b64url_char(y),
    ensures
        x == y,
{
    assert(b64url_char(x) as int == if x < 26 { x + 65 } else if x < 52 { x + 71 } else if x < 62 { x - 4 } else if x == 62 { 45 } else { 95 });
    assert(b64url_char(y) as int == if y < 26 { y + 65 } else if y < 52 { y + 71 } else if y < 62 { y - 4 } else if y == 62 { 45 } else { 95 });
}

/// The length of the unpadded base64 text of `n` bytes.
proof fn lemma_base64url_nopad_len(b: Seq<u8>)
    ensures
        base64url_nopad(b).len() == 4 * (b.len() / 3) + if b.len() % 3 == 0 {
            0
        } else {
            b.len() % 3 + 1
        },
    decreases b.len(),
{
    if b.len() >= 3 {
        lemma_base64url_nopad_len(b.skip(3));
    }
}

/// Different lists of bytes have different unpadded base64 texts.
pub proof fn lemma_base64url_nopad_injective(a: Seq<u8>, b: Seq<u8>)
    requires
        base64url_nopad(a) == base64url_nopad(b),
    ensures
        a == b,
    decreases a.len(),
{
    lemma_base64url_nopad_len(a);
    lemma_base64url_nopad_len(b);
    let ea = base64url_nopad(a);
    let n = a.len();
    let m = b.len();
    assert(n == m) by {
        let (q1, r1) = (n as int / 3, n as int % 3);
        let (q2, r2) = (m as int / 3, m as int % 3);
        assert(n == 3 * q1 + r1 && 0 <= r1 < 3);
        assert(m == 3 * q2 + r2 && 0 <= r2 < 3);
        assert(r1 == r2);
        assert(q1 == q2);
    }
    if n == 0 {
        assert(a =~= b);
    } else {
        let a0 = a[0] as int;
        let b0 = b[0] as int;
        assert(ea[0] == b64url_char(a0 / 4) && ea[0] == b64url_char(b0 / 4));
        lemma_b64url_char_injective(a0 / 4, b0 / 4);
        if n == 1 {
            assert(ea[1] == b64url_char((a0 % 4) * 16) && ea[1] == b64url_char((b0 % 4) * 16));
            lemma_b64url_char_injective((a0 % 4) * 16, (b0 % 4) * 16);
            assert(a =~= b);
        } else {
            let a1 = a[1] as int;
            let b1 = b[1] as int;
            assert(ea[1] == b64url_char((a0 % 4) * 16 + a1 / 16) && ea[1] == b64url_char((b0 % 4) * 16 + b1 / 16));
            lemma_b64url_char_injective((a0 % 4) * 16 + a1 / 16, (b0 % 4) * 16 + b1 / 16);
            if n == 2 {
                assert(ea[2] == b64url_char((a1 % 16) * 4) && ea[2] == b64url_char((b1 % 16) * 4));
                lemma_b64url_char_injective((a1 % 16) * 4, (b1 % 16) * 4);
                assert(a =~= b);
            } else {
                let a2 = a[2] as int;
                let b2 = b[2] as int;
                assert(ea[2] == b64url_char((a1 % 16) * 4 + a2 / 64) && ea[2] == b64url_char((b1 % 16) * 4 + b2 / 64));
                lemma_b64url_char_injective((a1 % 16) * 4 + a2 / 64, (b1 % 16) * 4 + b2 / 64);
                assert(ea[3] == b64url_char(a2 % 64) && ea[3] == b64url_char(b2 % 64));
                lemma_b64url_char_injective(a2 % 64, b2 % 64);
                assert(base64url_nopad(a.skip(3)) =~= ea.skip(4));
                assert(base64url_nopad(b.skip(3)) =~= ea.skip(4));
                lemma_base64url_nopad_injective(a.skip(3), b.skip(3));
                assert forall|k: int| 0 <= k < n implies a[k] == b[k] by {
                    if k >= 3 {
                        assert(a[k] == a.skip(3)[k - 3]);
                        assert(b[k] == b.skip(3)[k - 3]);
                    }
                }
                assert(a =~= b);
            }
        }
    }
}

} // verus!
