//! Rebuilding the Clevis configuration of an encrypted device from the JWE
//! that Clevis stored in its LUKS2 token, and reading the key slots a token
//! lists.

use vstd::prelude::*;
use crate::clevis::{
    json_clone, json_get, lemma_array_view, lemma_object_view, values_v, entries_v, getv, memberv,
    withoutv, Json, JsonV, CLEVIS_RECURSION_LIMIT,
};
use crate::errors::{ErrorReason, StratisError};
use crate::outside::{
    base64url_decode, base64url_decoded, base64url_encode, base64url_nopad, json_bytes, json_parsed,
    json_to_bytes, parse_json, sha256, sha256_digest,
};

verus! {

/// The member `b` of the member `a` of a value.
pub open spec fn get2(v: JsonV, a: Seq<char>, b: Seq<char>) -> Option<JsonV> {
    match getv(v, a) {
        Some(x) => getv(x, b),
        None => None,
    }
}

/// A key whose operations are exactly verification.
pub open spec fn is_verify_key(k: JsonV) -> bool {
    getv(k, "key_ops"@) == Some(JsonV::Array(seq![JsonV::Str("verify"@)]))
}

/// The first verification key of a list, if any.
pub open spec fn first_verify_key(keys: Seq<JsonV>) -> Option<JsonV>
    decreases keys.len(),
{
    if keys.len() == 0 {
        None
    } else if is_verify_key(keys[0]) {
        Some(keys[0])
    } else {
        first_verify_key(keys.drop_first())
    }
}

/// The Tang server's URL and its verification key without the members
/// `key_ops` and `alg`, read from a decoded Tang JWE.
pub open spec fn tang_parts(json: JsonV) -> Result<(Seq<char>, Seq<(Seq<char>, JsonV)>), ErrorReason> {
    match get2(json, "clevis"@, "tang"@) {
        Some(JsonV::Object(o)) => match memberv(o, "url"@) {
            Some(JsonV::Str(url)) => match (match memberv(o, "adv"@) {
                Some(adv) => getv(adv, "keys"@),
                None => None,
            }) {
                Some(JsonV::Array(keys)) => match first_verify_key(keys) {
                    Some(JsonV::Object(k)) => Ok((url, withoutv(withoutv(k, "key_ops"@), "alg"@))),
                    Some(_) => Err(ErrorReason::KeyNotObject),
                    None => Err(ErrorReason::VerificationKeyNotFound),
                },
                _ => Err(ErrorReason::TangKeysExpected),
            },
            _ => Err(ErrorReason::TangUrlExpected),
        },
        _ => Err(ErrorReason::TangObjectExpected),
    }
}

/// The thumbprint of a key: the URL-safe base64 text of the SHA-256 digest
/// of its JSON text.
pub open spec fn thumbprint(key: Seq<(Seq<char>, JsonV)>) -> Seq<char> {
    base64url_nopad(sha256_digest(json_bytes(JsonV::Object(key))))
}

/// The Tang configuration a decoded Tang JWE was bound with: the server's
/// thumbprint and URL.
pub open spec fn tang_config(json: JsonV) -> Result<JsonV, ErrorReason> {
    match tang_parts(json) {
        Ok((url, key)) => Ok(JsonV::Object(seq![("thp"@, JsonV::Str(thumbprint(key))), ("url"@, JsonV::Str(url))])),
        Err(e) => Err(e),
    }
}

/// The text before the first '.', or all of it when there is none.
pub open spec fn before_dot(s: Seq<char>) -> Seq<char>
    decreases s.len(),
{
    if s.len() == 0 {
        s
    } else if s[0] == '.' {
        Seq::empty()
    } else {
        seq![s[0]] + before_dot(s.drop_first())
    }
}

/// Add a configuration under its pin: appended to the pin's list when the
/// pin is there, else a new pin at the end.
pub open spec fn add_pin(m: Seq<(Seq<char>, Seq<JsonV>)>, pin: Seq<char>, v: JsonV) -> Seq<(Seq<char>, Seq<JsonV>)>
    decreases m.len(),
{
    if m.len() == 0 {
        seq![(pin, seq![v])]
    } else if m[0].0 == pin {
        m.update(0, (pin, m[0].1.push(v)))
    } else {
        seq![m[0]] + add_pin(m.drop_first(), pin, v)
    }
}

/// The pins object of a Shamir configuration: each pin with the list of
/// its configurations.
pub open spec fn pins_object(m: Seq<(Seq<char>, Seq<JsonV>)>) -> Seq<(Seq<char>, JsonV)> {
    Seq::new(m.len(), |i: int| (m[i].0, JsonV::Array(m[i].1)))
}

/// The pin and configuration a decoded JWE was bound with, Shamir
/// configurations nesting at most `limit` deep.
pub open spec fn pin_config(json: JsonV, limit: nat) -> Result<(Seq<char>, JsonV), ErrorReason>
    decreases limit, 2nat, 0nat,
{
    match get2(json, "clevis"@, "pin"@) {
        None => Err(ErrorReason::ClevisPinMissing),
        Some(JsonV::Str(p)) => if p == "tang"@ {
            match tang_config(json) {
                Ok(v) => Ok(("tang"@, v)),
                Err(e) => Err(e),
            }
        } else if p == "sss"@ {
            match sss_config(json, limit) {
                Ok(v) => Ok(("sss"@, v)),
                Err(e) => Err(e),
            }
        } else if p == "tpm2"@ {
            Ok(("tpm2"@, JsonV::Object(Seq::empty())))
        } else {
            Err(ErrorReason::UnsupportedPin)
        },
        Some(_) => Err(ErrorReason::UnsupportedPin),
    }
}

/// The Shamir configuration a decoded Shamir JWE was bound with: the
/// threshold, and under each pin the configurations of the JWEs it holds,
/// pins in the order they first occur.
pub open spec fn sss_config(json: JsonV, limit: nat) -> Result<JsonV, ErrorReason>
    decreases limit, 1nat, 0nat,
{
    if limit == 0 {
        Err(ErrorReason::RecursionLimit)
    } else {
        match get2(json, "clevis"@, "sss"@) {
            Some(JsonV::Object(o)) => match memberv(o, "t"@) {
                Some(JsonV::Number(t)) => match memberv(o, "jwe"@) {
                    Some(JsonV::Array(jwes)) => match sss_pins(jwes, limit) {
                        Ok(pins) => Ok(
                            JsonV::Object(
                                seq![("pins"@, JsonV::Object(pins_object(pins))), ("t"@, JsonV::Number(t))],
                            ),
                        ),
                        Err(e) => Err(e),
                    },
                    _ => Err(ErrorReason::SssJweExpected),
                },
                _ => Err(ErrorReason::SssThresholdExpected),
            },
            _ => Err(ErrorReason::SssObjectExpected),
        }
    }
}

/// A Shamir configuration from its threshold and its gathered pins.
pub open spec fn sss_wrap(t: u64, pins: Result<Seq<(Seq<char>, Seq<JsonV>)>, ErrorReason>) -> Result<JsonV, ErrorReason> {
    match pins {
        Ok(p) => Ok(JsonV::Object(seq![("pins"@, JsonV::Object(pins_object(p))), ("t"@, JsonV::Number(t))])),
        Err(e) => Err(e),
    }
}

/// The configurations of the JWEs of a Shamir configuration, gathered by
/// pin; the first JWE that fails decides the error.
pub open spec fn sss_pins(jwes: Seq<JsonV>, limit: nat) -> Result<Seq<(Seq<char>, Seq<JsonV>)>, ErrorReason>
    decreases limit, 0nat, jwes.len(),
{
    if jwes.len() == 0 {
        Ok(Seq::empty())
    } else {
        match sss_pins(jwes.drop_last(), limit) {
            Err(e) => Err(e),
            Ok(m) => match jwe_config(jwes.last(), limit) {
                Err(e) => Err(e),
                Ok((p, v)) => Ok(add_pin(m, p, v)),
            },
        }
    }
}

/// The pin and configuration of one JWE of a Shamir configuration: its
/// text up to the first '.' is decoded from base64 and read as JSON.
pub open spec fn jwe_config(jwe: JsonV, limit: nat) -> Result<(Seq<char>, JsonV), ErrorReason>
    decreases limit, 0nat, 0nat,
{
    if limit == 0 {
        Err(ErrorReason::RecursionLimit)
    } else {
        match jwe {
            JsonV::Str(s) => match base64url_decoded(before_dot(s)) {
                None => Err(ErrorReason::InvalidBase64),
                Some(b) => match json_parsed(b) {
                    None => Err(ErrorReason::InvalidJson),
                    Some(v) => pin_config(v, (limit - 1) as nat),
                },
            },
            _ => Err(ErrorReason::SssJweNotString),
        }
    }
}

/// A rebuilt pin configuration agrees with its specification.
pub open spec fn pin_result_ok(r: Result<(String, Json), StratisError>, s: Result<(Seq<char>, JsonV), ErrorReason>) -> bool {
    match s {
        Ok((p, v)) => r matches Ok((p2, v2)) && p2@ == p && v2@ == v,
        Err(e) => r == Err::<(String, Json), StratisError>(StratisError::Msg(e)),
    }
}

/// A rebuilt configuration agrees with its specification.
pub open spec fn json_result_ok(r: Result<Json, StratisError>, s: Result<JsonV, ErrorReason>) -> bool {
    match s {
        Ok(v) => r matches Ok(j) && j@ == v,
        Err(e) => r == Err::<Json, StratisError>(StratisError::Msg(e)),
    }
}

proof fn lemma_withoutv_push(s: Seq<(Seq<char>, JsonV)>, x: (Seq<char>, JsonV), key: Seq<char>)
    ensures
        withoutv(s.push(x), key) == if x.0 != key {
            withoutv(s, key).push(x)
        } else {
            withoutv(s, key)
        },
{
    reveal(Seq::filter);
    assert(s.push(x).drop_last() =~= s);
}

/// The members of a key without `key_ops` and `alg`.
fn strip_key(k: &Vec<(String, Json)>) -> (r: Vec<(String, Json)>)
    ensures
        entries_v(r@) == withoutv(withoutv(entries_v(k@), "key_ops"@), "alg"@),
{
    let mut out: Vec<(String, Json)> = Vec::new();
    let mut i: usize = 0;
    proof {
        reveal(Seq::filter);
        assert(entries_v(k@.take(0)) =~= Seq::<(Seq<char>, JsonV)>::empty());
        assert(entries_v(out@) =~= Seq::<(Seq<char>, JsonV)>::empty());
        reveal_strlit("key_ops");
        reveal_strlit("alg");
    }
    while i < k.len()
        invariant
            i <= k@.len(),
            entries_v(out@) == withoutv(withoutv(entries_v(k@.take(i as int)), "key_ops"@), "alg"@),
        decreases k@.len() - i,
    {
        let ghost prev = out@;
        let ghost x = (k@[i as int].0@, json_view_of(&k@[i as int].1));
        proof {
            assert(entries_v(k@.take(i as int + 1)) =~= entries_v(k@.take(i as int)).push(x));
            lemma_withoutv_push(entries_v(k@.take(i as int)), x, "key_ops"@);
            lemma_withoutv_push(withoutv(entries_v(k@.take(i as int)), "key_ops"@), x, "alg"@);
        }
        let keep = !crate::table::str_eq(k[i].0.as_str(), "key_ops") && !crate::table::str_eq(k[i].0.as_str(), "alg");
        if keep {
            let c = json_clone(&k[i].1);
            out.push((k[i].0.clone(), c));
            proof {
                assert(entries_v(out@) =~= entries_v(prev).push(x));
            }
        }
        i = i + 1;
    }
    proof {
        assert(k@.take(k@.len() as int) =~= k@);
    }
    out
}

/// The mathematical value of a JSON value behind a reference.
pub open spec fn json_view_of(j: &Json) -> JsonV {
    j@
}

/// Whether a key's operations are exactly verification.
fn is_verify_key_exec(k: &Json) -> (r: bool)
    ensures
        r == is_verify_key(k@),
{
    proof {
        reveal_strlit("key_ops");
        reveal_strlit("verify");
    }
    match json_get(k, "key_ops") {
        Some(Json::Array(a)) => {
            proof {
                lemma_array_view(*a);
            }
            if a.len() != 1 {
                proof {
                    assert(values_v(a@).len() != 1);
                    assert(values_v(a@) != seq![JsonV::Str("verify"@)]);
                }
                return false;
            }
            match &a[0] {
                Json::Str(s) => {
                    let r = crate::table::str_eq(s.as_str(), "verify");
                    proof {
                        if r {
                            assert(values_v(a@) =~= seq![JsonV::Str("verify"@)]);
                        } else {
                            assert(values_v(a@)[0] != JsonV::Str("verify"@));
                        }
                    }
                    r
                },
                _ => {
                    proof {
                        assert(values_v(a@)[0] != JsonV::Str("verify"@));
                    }
                    false
                },
            }
        },
        _ => false,
    }
}

/// The first verification key of a list, if any.
fn find_verify_key(keys: &Vec<Json>) -> (r: Option<&Json>)
    ensures
        match first_verify_key(values_v(keys@)) {
            Some(x) => r matches Some(y) && y@ == x,
            None => r is None,
        },
{
    let mut i: usize = 0;
    proof {
        assert(values_v(keys@).skip(0) =~= values_v(keys@));
    }
    while i < keys.len()
        invariant
            i <= keys@.len(),
            first_verify_key(values_v(keys@)) == first_verify_key(values_v(keys@).skip(i as int)),
        decreases keys@.len() - i,
    {
        proof {
            assert(values_v(keys@).skip(i as int)[0] == keys@[i as int]@);
            assert(values_v(keys@).skip(i as int).drop_first() =~= values_v(keys@).skip(i as int + 1));
        }
        if is_verify_key_exec(&keys[i]) {
            return Some(&keys[i]);
        }
        i = i + 1;
    }
    None
}

/// The members of the object under `clevis`.`name` of a decoded JWE.
fn clevis_object<'a>(json: &'a Json, name: &str) -> (r: Option<&'a Vec<(String, Json)>>)
    ensures
        match get2(json@, "clevis"@, name@) {
            Some(JsonV::Object(o)) => r matches Some(e) && entries_v(e@) == o,
            _ => r is None,
        },
{
    proof {
        reveal_strlit("clevis");
    }
    match json_get(json, "clevis") {
        Some(c) => match json_get(c, name) {
            Some(Json::Object(o)) => {
                proof {
                    lemma_object_view(*o);
                }
                Some(o)
            },
            Some(other) => {
                proof {
                    lemma_not_object(other);
                }
                None
            },
            None => None,
        },
        None => None,
    }
}

proof fn lemma_not_object(j: &Json)
    requires
        !(*j is Object),
    ensures
        !(j@ is Object),
{
}

/// The member `key` of an object's members, by value.
fn member_of<'a>(e: &'a Vec<(String, Json)>, key: &str) -> (r: Option<&'a Json>)
    ensures
        match memberv(entries_v(e@), key@) {
            Some(x) => r matches Some(y) && y@ == x,
            None => r is None,
        },
{
    proof {
        crate::clevis::lemma_member_view(e@, key@);
    }
    crate::clevis::get_member(e, key)
}

/// Rebuild the Tang configuration of a decoded Tang JWE: the server's URL
/// and the thumbprint of its verification key.
pub fn tang_dispatch(json: &Json) -> (r: Result<Json, StratisError>)
    ensures
        json_result_ok(r, tang_config(json@)),
{
    proof {
        reveal_strlit("tang");
        reveal_strlit("url");
        reveal_strlit("adv");
        reveal_strlit("keys");
        reveal_strlit("thp");
    }
    let object = match clevis_object(json, "tang") {
        Some(o) => o,
        None => {
            return Err(StratisError::Msg(ErrorReason::TangObjectExpected));
        },
    };
    let url = match member_of(object, "url") {
        Some(Json::Str(s)) => s,
        _ => {
            return Err(StratisError::Msg(ErrorReason::TangUrlExpected));
        },
    };
    let keys = match member_of(object, "adv") {
        Some(adv) => match json_get(adv, "keys") {
            Some(Json::Array(k)) => {
                proof {
                    lemma_array_view(*k);
                }
                k
            },
            _ => {
                return Err(StratisError::Msg(ErrorReason::TangKeysExpected));
            },
        },
        None => {
            return Err(StratisError::Msg(ErrorReason::TangKeysExpected));
        },
    };
    let key = match find_verify_key(keys) {
        Some(Json::Object(k)) => {
            proof {
                lemma_object_view(*k);
            }
            k
        },
        Some(other) => {
            proof {
                lemma_not_object(other);
            }
            return Err(StratisError::Msg(ErrorReason::KeyNotObject));
        },
        None => {
            return Err(StratisError::Msg(ErrorReason::VerificationKeyNotFound));
        },
    };
    let stripped = strip_key(key);
    let key_json = Json::Object(stripped);
    proof {
        lemma_object_view(stripped);
    }
    let bytes = json_to_bytes(&key_json);
    let digest = sha256(bytes.as_slice());
    let thp = base64url_encode(digest.as_slice());
    let entries = vec![("thp".to_owned(), Json::Str(thp)), ("url".to_owned(), Json::Str(url.clone()))];
    proof {
        lemma_object_view(entries);
        assert(entries_v(entries@) =~= seq![("thp"@, JsonV::Str(thp@)), ("url"@, JsonV::Str(url@))]);
    }
    Ok(Json::Object(entries))
}

/// The pins gathered so far, as mathematical values.
pub open spec fn pins_v(m: Seq<(String, Vec<Json>)>) -> Seq<(Seq<char>, Seq<JsonV>)> {
    Seq::new(m.len(), |i: int| (m[i].0@, values_v(m[i].1@)))
}

proof fn lemma_add_pin_at(m: Seq<(Seq<char>, Seq<JsonV>)>, pin: Seq<char>, v: JsonV, k: int)
    requires
        0 <= k <= m.len(),
        forall|j: int| 0 <= j < k ==> m[j].0 != pin,
        k < m.len() ==> m[k].0 == pin,
    ensures
        add_pin(m, pin, v) == if k == m.len() {
            m.push((pin, seq![v]))
        } else {
            m.update(k, (pin, m[k].1.push(v)))
        },
    decreases k,
{
    if m.len() == 0 {
        assert(add_pin(m, pin, v) =~= m.push((pin, seq![v])));
    } else if k == 0 {
    } else {
        lemma_add_pin_at(m.drop_first(), pin, v, k - 1);
        if k == m.len() {
            assert(seq![m[0]] + m.drop_first().push((pin, seq![v])) =~= m.push((pin, seq![v])));
        } else {
            assert(seq![m[0]] + m.drop_first().update(k - 1, (pin, m[k].1.push(v))) =~= m.update(k, (pin, m[k].1.push(v))));
        }
    }
}

/// Add a configuration under its pin.
fn add_pin_exec(pins: &mut Vec<(String, Vec<Json>)>, pin: String, v: Json)
    ensures
        pins_v(final(pins)@) == add_pin(pins_v(old(pins)@), pin@, v@),
{
    let mut k: usize = 0;
    let mut found = false;
    while k < pins.len() && !found
        invariant
            k <= pins@.len(),
            pins@ == old(pins)@,
            forall|j: int| 0 <= j < k ==> (#[trigger] pins@[j]).0@ != pin@,
            found ==> k < pins@.len() && pins@[k as int].0@ == pin@,
        decreases pins@.len() - k + (if found { 0int } else { 1int }),
    {
        if crate::table::str_eq(pins[k].0.as_str(), pin.as_str()) {
            found = true;
        } else {
            k = k + 1;
        }
    }
    let ghost m = pins_v(pins@);
    proof {
        lemma_add_pin_at(m, pin@, v@, k as int);
    }
    if k == pins.len() {
        let ghost before = pins@;
        pins.push((pin, vec![v]));
        proof {
            assert(values_v(pins@[k as int].1@) =~= seq![v@]);
            assert(pins_v(pins@) =~= m.push((pin@, seq![v@])));
        }
    } else {
        let ghost before = pins@;
        let (p, mut vs) = pins.remove(k);
        let ghost old_vs = vs@;
        vs.push(v);
        pins.insert(k, (p, vs));
        proof {
            assert(values_v(vs@) =~= values_v(old_vs).push(v@));
            assert(pins@ =~= before.update(k as int, (p, vs)));
            assert(p == before[k as int].0 && old_vs == before[k as int].1@);
            assert(m[k as int] == (before[k as int].0@, values_v(before[k as int].1@)));
            assert(pins_v(pins@) =~= m.update(k as int, (pin@, m[k as int].1.push(v@))));
        }
    }
}

/// The text before the first '.', or all of it when there is none.
fn before_dot_exec(s: &str) -> (r: &str)
    ensures
        r@ == before_dot(s@),
{
    let n = s.unicode_len();
    let mut i: usize = 0;
    let mut found = false;
    while i < n && !found
        invariant
            i <= n,
            n == s@.len(),
            forall|j: int| 0 <= j < i ==> s@[j] != '.',
            found ==> i < n && s@[i as int] == '.',
        decreases n - i + (if found { 0int } else { 1int }),
    {
        if s.get_char(i) == '.' {
            found = true;
        } else {
            i = i + 1;
        }
    }
    proof {
        lemma_before_dot(s@, i as int);
    }
    s.substring_char(0, i)
}

proof fn lemma_before_dot(s: Seq<char>, i: int)
    requires
        0 <= i <= s.len(),
        forall|j: int| 0 <= j < i ==> s[j] != '.',
        i < s.len() ==> s[i] == '.',
    ensures
        before_dot(s) == s.subrange(0, i),
    decreases i,
{
    if s.len() == 0 {
        assert(s.subrange(0, i) =~= s);
    } else if i == 0 {
        assert(s.subrange(0, 0) =~= Seq::<char>::empty());
    } else {
        lemma_before_dot(s.drop_first(), i - 1);
        assert(seq![s[0]] + s.drop_first().subrange(0, i - 1) =~= s.subrange(0, i));
    }
}

proof fn lemma_sss_pins_err(s: Seq<JsonV>, limit: nat, k: int)
    requires
        0 <= k <= s.len(),
        sss_pins(s.take(k), limit) is Err,
    ensures
        sss_pins(s, limit) == sss_pins(s.take(k), limit),
    decreases s.len() - k,
{
    if k == s.len() {
        assert(s.take(k) =~= s);
    } else {
        assert(s.take(k + 1).drop_last() =~= s.take(k));
        lemma_sss_pins_err(s, limit, k + 1);
    }
}

/// Rebuild the configuration of a decoded JWE: its pin, and for Tang the
/// server's URL and thumbprint, for Shamir the threshold and the
/// configurations of the JWEs it holds, for a TPM an empty object.
pub fn pin_dispatch(decoded_jwe: &Json, recursion_limit: u64) -> (r: Result<(String, Json), StratisError>)
    ensures
        pin_result_ok(r, pin_config(decoded_jwe@, recursion_limit as nat)),
    decreases recursion_limit, 2nat,
{
    proof {
        reveal_strlit("clevis");
        reveal_strlit("pin");
        reveal_strlit("tang");
        reveal_strlit("sss");
        reveal_strlit("tpm2");
    }
    let pin = match json_get(decoded_jwe, "clevis") {
        Some(c) => match json_get(c, "pin") {
            Some(p) => p,
            None => {
                return Err(StratisError::Msg(ErrorReason::ClevisPinMissing));
            },
        },
        None => {
            return Err(StratisError::Msg(ErrorReason::ClevisPinMissing));
        },
    };
    match pin {
        Json::Str(p) => {
            if crate::table::str_eq(p.as_str(), "tang") {
                match tang_dispatch(decoded_jwe) {
                    Ok(v) => Ok(("tang".to_owned(), v)),
                    Err(e) => Err(e),
                }
            } else if crate::table::str_eq(p.as_str(), "sss") {
                match sss_dispatch(decoded_jwe, recursion_limit) {
                    Ok(v) => Ok(("sss".to_owned(), v)),
                    Err(e) => Err(e),
                }
            } else if crate::table::str_eq(p.as_str(), "tpm2") {
                let empty: Vec<(String, Json)> = Vec::new();
                proof {
                    lemma_object_view(empty);
                    assert(entries_v(empty@) =~= Seq::<(Seq<char>, JsonV)>::empty());
                }
                Ok(("tpm2".to_owned(), Json::Object(empty)))
            } else {
                Err(StratisError::Msg(ErrorReason::UnsupportedPin))
            }
        },
        _ => Err(StratisError::Msg(ErrorReason::UnsupportedPin)),
    }
}

/// Rebuild the Shamir configuration of a decoded Shamir JWE: the threshold,
/// and under each pin, in the order pins first occur, the configurations
/// of the JWEs it holds.
fn sss_dispatch(json: &Json, recursion_limit: u64) -> (r: Result<Json, StratisError>)
    ensures
        json_result_ok(r, sss_config(json@, recursion_limit as nat)),
    decreases recursion_limit, 1nat,
{
    if recursion_limit == 0 {
        return Err(StratisError::Msg(ErrorReason::RecursionLimit));
    }
    proof {
        reveal_strlit("sss");
        reveal_strlit("t");
        reveal_strlit("jwe");
        reveal_strlit("pins");
    }
    let object = match clevis_object(json, "sss") {
        Some(o) => o,
        None => {
            return Err(StratisError::Msg(ErrorReason::SssObjectExpected));
        },
    };
    let threshold = match member_of(object, "t") {
        Some(Json::Number(t)) => *t,
        _ => {
            return Err(StratisError::Msg(ErrorReason::SssThresholdExpected));
        },
    };
    let jwes = match member_of(object, "jwe") {
        Some(Json::Array(a)) => {
            proof {
                lemma_array_view(*a);
            }
            a
        },
        _ => {
            return Err(StratisError::Msg(ErrorReason::SssJweExpected));
        },
    };
    let ghost jv = values_v(jwes@);
    let ghost limit = recursion_limit as nat;
    proof {
        assert(sss_config(json@, limit) == sss_wrap(threshold, sss_pins(jv, limit)));
    }
    let mut pins: Vec<(String, Vec<Json>)> = Vec::new();
    let mut i: usize = 0;
    proof {
        assert(jv.take(0) =~= Seq::<JsonV>::empty());
        assert(pins_v(pins@) =~= Seq::<(Seq<char>, Seq<JsonV>)>::empty());
    }
    while i < jwes.len()
        invariant
            i <= jwes@.len(),
            jv == values_v(jwes@),
            limit == recursion_limit,
            recursion_limit > 0,
            sss_pins(jv.take(i as int), limit) == Ok::<Seq<(Seq<char>, Seq<JsonV>)>, ErrorReason>(pins_v(pins@)),
            sss_config(json@, limit) == sss_wrap(threshold, sss_pins(jv, limit)),
        decreases jwes@.len() - i,
    {
        proof {
            assert(jv.take(i as int + 1).drop_last() =~= jv.take(i as int));
            assert(jv.take(i as int + 1).last() == jv[i as int]);
        }
        let (pin, value) = match &jwes[i] {
            Json::Str(s) => {
                let text = before_dot_exec(s.as_str());
                proof {
                    assert(jv[i as int] == JsonV::Str(s@));
                }
                let bytes = match base64url_decode(text) {
                    Some(b) => b,
                    None => {
                        proof {
                            assert(base64url_decoded(before_dot(s@)) is None);
                            assert(jwe_config(jv[i as int], limit) == Err::<(Seq<char>, JsonV), ErrorReason>(
                                ErrorReason::InvalidBase64,
                            ));
                            assert(sss_pins(jv.take(i as int + 1), limit) == Err::<Seq<(Seq<char>, Seq<JsonV>)>, ErrorReason>(
                                ErrorReason::InvalidBase64,
                            ));
                            lemma_sss_pins_err(jv, limit, i as int + 1);
                            assert(sss_pins(jv, limit) == Err::<Seq<(Seq<char>, Seq<JsonV>)>, ErrorReason>(
                                ErrorReason::InvalidBase64,
                            ));
                            assert(sss_config(json@, limit) == Err::<JsonV, ErrorReason>(ErrorReason::InvalidBase64));
                        }
                        return Err(StratisError::Msg(ErrorReason::InvalidBase64));
                    },
                };
                let v = match parse_json(bytes.as_slice()) {
                    Some(v) => v,
                    None => {
                        proof {
                            assert(json_parsed(bytes@) is None);
                            assert(jwe_config(jv[i as int], limit) == Err::<(Seq<char>, JsonV), ErrorReason>(
                                ErrorReason::InvalidJson,
                            ));
                            assert(sss_pins(jv.take(i as int + 1), limit) == Err::<Seq<(Seq<char>, Seq<JsonV>)>, ErrorReason>(
                                ErrorReason::InvalidJson,
                            ));
                            lemma_sss_pins_err(jv, limit, i as int + 1);
                            assert(sss_pins(jv, limit) == Err::<Seq<(Seq<char>, Seq<JsonV>)>, ErrorReason>(
                                ErrorReason::InvalidJson,
                            ));
                            assert(sss_config(json@, limit) == Err::<JsonV, ErrorReason>(ErrorReason::InvalidJson));
                        }
                        return Err(StratisError::Msg(ErrorReason::InvalidJson));
                    },
                };
                match pin_dispatch(&v, recursion_limit - 1) {
                    Ok(x) => x,
                    Err(e) => {
                        proof {
                            lemma_sss_pins_err(jv, limit, i as int + 1);
                        }
                        return Err(e);
                    },
                }
            },
            _ => {
                proof {
                    lemma_sss_pins_err(jv, limit, i as int + 1);
                }
                return Err(StratisError::Msg(ErrorReason::SssJweNotString));
            },
        };
        add_pin_exec(&mut pins, pin, value);
        i = i + 1;
    }
    proof {
        assert(jv.take(jwes@.len() as int) =~= jv);
    }
    let ghost gathered = pins_v(pins@);
    let mut rest = pins;
    let mut entries: Vec<(String, Json)> = Vec::new();
    let ghost mut k: int = 0;
    proof {
        assert(rest@.skip(0) =~= rest@);
        assert(entries_v(entries@) =~= pins_object(gathered).take(0));
    }
    while rest.len() > 0
        invariant
            0 <= k <= gathered.len(),
            pins_v(rest@) == gathered.skip(k),
            entries_v(entries@) == pins_object(gathered).take(k),
        decreases rest@.len(),
    {
        let ghost before = rest@;
        let (p, vs) = rest.remove(0);
        proof {
            assert(pins_v(before).len() == before.len());
            assert(k < gathered.len());
            assert(gathered.skip(k)[0] == gathered[k]);
            assert(pins_v(before)[0] == (before[0].0@, values_v(before[0].1@)));
            assert(pins_v(before)[0] == gathered[k]);
            lemma_array_view(vs);
        }
        let ghost prev = entries@;
        entries.push((p, Json::Array(vs)));
        proof {
            assert(entries@ == prev.push((p, Json::Array(vs))));
            assert(entries_v(entries@) =~= entries_v(prev).push((p@, JsonV::Array(values_v(vs@)))));
            assert(pins_object(gathered).take(k + 1) =~= pins_object(gathered).take(k).push(pins_object(gathered)[k]));
            assert(entries_v(entries@) =~= pins_object(gathered).take(k + 1));
            assert(rest@ =~= before.skip(1));
            assert(pins_v(rest@) =~= pins_v(before).skip(1));
            assert(gathered.skip(k).skip(1) =~= gathered.skip(k + 1));
            assert(pins_v(rest@) =~= gathered.skip(k + 1));
            k = k + 1;
        }
    }
    proof {
        assert(pins_v(rest@).len() == 0);
        assert(pins_object(gathered).take(k) =~= pins_object(gathered));
        lemma_object_view(entries);
    }
    let top = vec![("pins".to_owned(), Json::Object(entries)), ("t".to_owned(), Json::Number(threshold))];
    proof {
        lemma_object_view(top);
        assert(entries_v(top@) =~= seq![
            ("pins"@, JsonV::Object(pins_object(gathered))),
            ("t"@, JsonV::Number(threshold)),
        ]);
    }
    Ok(Json::Object(top))
}

/// The Clevis configuration recorded in a device's Clevis token: nothing
/// when there is no token or it holds no protected JWE header; otherwise
/// the header decoded from base64 and read as JSON, and the pin and
/// configuration it was bound with.
pub open spec fn clevis_info(token: Option<JsonV>) -> Result<Option<(Seq<char>, JsonV)>, ErrorReason> {
    match token {
        None => Ok(None),
        Some(t) => match get2(t, "jwe"@, "protected"@) {
            Some(JsonV::Str(b64)) => match base64url_decoded(b64) {
                None => Err(ErrorReason::InvalidBase64),
                Some(bytes) => match json_parsed(bytes) {
                    None => Err(ErrorReason::InvalidJson),
                    Some(v) => match pin_config(v, CLEVIS_RECURSION_LIMIT as nat) {
                        Ok(x) => Ok(Some(x)),
                        Err(e) => Err(e),
                    },
                },
            },
            _ => Ok(None),
        },
    }
}

/// Read the Clevis configuration from a device's Clevis token, `None`
/// standing for a token that could not be read.
pub fn clevis_info_from_metadata(token: Option<&Json>) -> (r: Result<Option<(String, Json)>, StratisError>)
    ensures
        match clevis_info(
            match token {
                Some(t) => Some(t@),
                None => None,
            },
        ) {
            Ok(None) => r matches Ok(None),
            Ok(Some((p, v))) => r matches Ok(Some((p2, v2))) && p2@ == p && v2@ == v,
            Err(e) => r == Err::<Option<(String, Json)>, StratisError>(StratisError::Msg(e)),
        },
{
    proof {
        reveal_strlit("jwe");
        reveal_strlit("protected");
    }
    let json = match token {
        Some(j) => j,
        None => {
            return Ok(None);
        },
    };
    let json_b64 = match json_get(json, "jwe") {
        Some(m) => match json_get(m, "protected") {
            Some(Json::Str(s)) => s,
            _ => {
                return Ok(None);
            },
        },
        None => {
            return Ok(None);
        },
    };
    let json_bytes = match base64url_decode(json_b64.as_str()) {
        Some(b) => b,
        None => {
            return Err(StratisError::Msg(ErrorReason::InvalidBase64));
        },
    };
    let subjson = match parse_json(json_bytes.as_slice()) {
        Some(v) => v,
        None => {
            return Err(StratisError::Msg(ErrorReason::InvalidJson));
        },
    };
    match pin_dispatch(&subjson, CLEVIS_RECURSION_LIMIT) {
        Ok(x) => Ok(Some(x)),
        Err(e) => Err(e),
    }
}

/// The value of a text of decimal digits.
pub open spec fn decimal_value(s: Seq<char>) -> int
    decreases s.len(),
{
    if s.len() == 0 {
        0
    } else {
        decimal_value(s.drop_last()) * 10 + (s.last() as int - 48)
    }
}

/// Every character is a decimal digit.
pub open spec fn all_digits(s: Seq<char>) -> bool {
    forall|i: int| 0 <= i < s.len() ==> '0' <= #[trigger] s[i] <= '9'
}

/// The unsigned 32-bit number a text denotes, as `str::parse::<u32>` reads
/// it: an optional '+' and then one or more decimal digits, of a value
/// that fits.
pub open spec fn parsed_u32(s: Seq<char>) -> Option<u32> {
    let d = if s.len() > 0 && s[0] == '+' {
        s.drop_first()
    } else {
        s
    };
    if d.len() > 0 && all_digits(d) && decimal_value(d) <= u32::MAX {
        Some(decimal_value(d) as u32)
    } else {
        None
    }
}

proof fn lemma_decimal_prefix(s: Seq<char>, k: int)
    requires
        0 <= k <= s.len(),
        all_digits(s),
    ensures
        decimal_value(s.take(k)) <= decimal_value(s),
        0 <= decimal_value(s.take(k)),
    decreases s.len() - k,
{
    if k < s.len() {
        lemma_decimal_prefix(s, k + 1);
        assert(s.take(k + 1).drop_last() =~= s.take(k));
        assert(s.take(k + 1).last() == s[k]);
    } else {
        assert(s.take(k) =~= s);
        lemma_decimal_nonneg(s);
    }
}

proof fn lemma_decimal_nonneg(s: Seq<char>)
    requires
        all_digits(s),
    ensures
        0 <= decimal_value(s),
    decreases s.len(),
{
    if s.len() > 0 {
        assert(all_digits(s.drop_last()));
        lemma_decimal_nonneg(s.drop_last());
        assert('0' <= s[s.len() - 1] <= '9');
    }
}

/// Parse an unsigned 32-bit number as `str::parse::<u32>` does.
pub fn parse_u32(s: &str) -> (r: Option<u32>)
    ensures
        r == parsed_u32(s@),
{
    let n = s.unicode_len();
    let start: usize = if n > 0 && s.get_char(0) == '+' {
        1
    } else {
        0
    };
    let ghost d = if s@.len() > 0 && s@[0] == '+' {
        s@.drop_first()
    } else {
        s@
    };
    proof {
        assert(d =~= s@.skip(start as int));
    }
    if start == n {
        return None;
    }
    let mut acc: u64 = 0;
    let mut i: usize = start;
    proof {
        assert(d.take(0) =~= Seq::<char>::empty());
    }
    while i < n
        invariant
            start <= i <= n,
            n == s@.len(),
            d =~= s@.skip(start as int),
            d == (if s@.len() > 0 && s@[0] == '+' {
                s@.drop_first()
            } else {
                s@
            }),
            d.len() > 0,
            all_digits(d.take(i - start)),
            acc == decimal_value(d.take(i - start)),
            acc <= u32::MAX,
        decreases n - i,
    {
        let c = s.get_char(i);
        proof {
            assert(d[i - start] == c);
            assert(d.take(i - start + 1).drop_last() =~= d.take(i - start));
            assert(d.take(i - start + 1).last() == c);
        }
        if c < '0' || c > '9' {
            proof {
                assert(!all_digits(d));
            }
            return None;
        }
        let digit: u64 = (c as u32 - 48) as u64;
        acc = acc * 10 + digit;
        proof {
            assert(all_digits(d.take(i - start + 1)));
            assert(acc == decimal_value(d.take(i - start + 1)));
        }
        if acc > 4294967295 {
            proof {
                if all_digits(d) {
                    lemma_decimal_prefix(d, i - start + 1);
                }
            }
            return None;
        }
        i = i + 1;
    }
    proof {
        assert(d.take(n - start) =~= d);
    }
    Some(acc as u32)
}

/// The key slot numbers a list of key slot values gives: each value that is
/// a text denoting an unsigned 32-bit number, in order; the others are
/// passed over.
pub open spec fn keyslot_numbers(v: Seq<JsonV>) -> Seq<u32>
    decreases v.len(),
{
    if v.len() == 0 {
        Seq::empty()
    } else {
        let rest = keyslot_numbers(v.drop_last());
        match v.last() {
            JsonV::Str(s) => match parsed_u32(s) {
                Some(n) => rest.push(n),
                None => rest,
            },
            _ => rest,
        }
    }
}

/// The key slots a LUKS2 token lists, `None` standing for a token that
/// could not be read: nothing for no token; refused when the token has no
/// array of key slots; otherwise the numbers that its entries denote.
pub fn get_keyslot_number(token: Option<&Json>) -> (r: Result<Option<Vec<u32>>, StratisError>)
    ensures
        token is None ==> r matches Ok(None),
        token matches Some(t) ==> match getv(t@, "keyslots"@) {
            Some(JsonV::Array(a)) => r matches Ok(Some(v)) && v@ == keyslot_numbers(a),
            _ => r == Err::<Option<Vec<u32>>, StratisError>(StratisError::Msg(ErrorReason::KeyslotsMalformed)),
        },
{
    let json = match token {
        Some(j) => j,
        None => {
            return Ok(None);
        },
    };
    let a = match json_get(json, "keyslots") {
        Some(Json::Array(a)) => {
            proof {
                lemma_array_view(*a);
            }
            a
        },
        _ => {
            return Err(StratisError::Msg(ErrorReason::KeyslotsMalformed));
        },
    };
    let ghost av = values_v(a@);
    let mut out: Vec<u32> = Vec::new();
    let mut i: usize = 0;
    proof {
        assert(av.take(0) =~= Seq::<JsonV>::empty());
    }
    while i < a.len()
        invariant
            i <= a@.len(),
            av == values_v(a@),
            out@ == keyslot_numbers(av.take(i as int)),
        decreases a@.len() - i,
    {
        proof {
            assert(av.take(i as int + 1).drop_last() =~= av.take(i as int));
            assert(av.take(i as int + 1).last() == a@[i as int]@);
        }
        match &a[i] {
            Json::Str(s) => {
                match parse_u32(s.as_str()) {
                    Some(n) => out.push(n),
                    None => {},
                }
            },
            _ => {},
        }
        i = i + 1;
    }
    proof {
        assert(av.take(a@.len() as int) =~= av);
    }
    Ok(Some(out))
}

} // verus!
