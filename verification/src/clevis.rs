//! Reading a Clevis configuration before binding: which Tang servers have
//! thumbprints, and whether all Tang servers are to be trusted.

use vstd::prelude::*;
use crate::errors::{ErrorReason, StratisError};

verus! {

/// How deeply Shamir secret sharing configurations may nest.
pub const CLEVIS_RECURSION_LIMIT: u64 = 20;

/// The member of a Tang or Shamir configuration that says to trust every
/// Tang server without a thumbprint.
pub const CLEVIS_TANG_TRUST_URL: &'static str = "stratis:tang:trust_url";

/// A JSON value. A number that is an unsigned 64-bit integer is held by
/// its value, any other number by its JSON text; object members are in
/// order, each name once.
#[derive(Debug, PartialEq, Eq)]
pub enum Json {
    Null,
    Bool(bool),
    Number(u64),
    Decimal(String),
    Str(String),
    Array(Vec<Json>),
    Object(Vec<(String, Json)>),
}

/// Mathematical value of a JSON value.
pub enum JsonV {
    Null,
    Bool(bool),
    Number(u64),
    Decimal(Seq<char>),
    Str(Seq<char>),
    Array(Seq<JsonV>),
    Object(Seq<(Seq<char>, JsonV)>),
}

/// The mathematical value of a JSON value.
pub open spec fn json_view(j: Json) -> JsonV
    decreases j,
{
    match j {
        Json::Null => JsonV::Null,
        Json::Bool(b) => JsonV::Bool(b),
        Json::Number(n) => JsonV::Number(n),
        Json::Decimal(t) => JsonV::Decimal(t@),
        Json::Str(s) => JsonV::Str(s@),
        Json::Array(v) => JsonV::Array(
            Seq::new(v@.len(), |i: int| if 0 <= i < v@.len() { json_view(v@[i]) } else { JsonV::Null }),
        ),
        Json::Object(e) => JsonV::Object(
            Seq::new(
                e@.len(),
                |i: int| if 0 <= i < e@.len() { (e@[i].0@, json_view(e@[i].1)) } else { (Seq::empty(), JsonV::Null) },
            ),
        ),
    }
}

impl View for Json {
    type V = JsonV;

    open spec fn view(&self) -> JsonV {
        json_view(*self)
    }
}

/// The mathematical values of a list of JSON values.
pub open spec fn values_v(v: Seq<Json>) -> Seq<JsonV> {
    Seq::new(v.len(), |i: int| json_view(v[i]))
}

/// The mathematical values of the members of an object.
pub open spec fn entries_v(e: Seq<(String, Json)>) -> Seq<(Seq<char>, JsonV)> {
    Seq::new(e.len(), |i: int| (e[i].0@, json_view(e[i].1)))
}

/// The value of the first member named `key`, if any.
pub open spec fn memberv(e: Seq<(Seq<char>, JsonV)>, key: Seq<char>) -> Option<JsonV>
    decreases e.len(),
{
    if e.len() == 0 {
        None
    } else if e[0].0 == key {
        Some(e[0].1)
    } else {
        memberv(e.drop_first(), key)
    }
}

/// The member `key` of a value that is an object; `None` for any other
/// value or when there is no such member.
pub open spec fn getv(v: JsonV, key: Seq<char>) -> Option<JsonV> {
    match v {
        JsonV::Object(e) => memberv(e, key),
        _ => None,
    }
}

/// The members without those named `key`.
pub open spec fn withoutv(e: Seq<(Seq<char>, JsonV)>, key: Seq<char>) -> Seq<(Seq<char>, JsonV)> {
    e.filter(|x: (Seq<char>, JsonV)| x.0 != key)
}

pub proof fn lemma_array_view(v: Vec<Json>)
    ensures
        json_view(Json::Array(v)) == JsonV::Array(values_v(v@)),
{
    let s = match json_view(Json::Array(v)) {
        JsonV::Array(s) => s,
        _ => Seq::empty(),
    };
    assert(s =~= values_v(v@));
}

pub proof fn lemma_object_view(e: Vec<(String, Json)>)
    ensures
        json_view(Json::Object(e)) == JsonV::Object(entries_v(e@)),
{
    let s = match json_view(Json::Object(e)) {
        JsonV::Object(s) => s,
        _ => Seq::empty(),
    };
    assert(s =~= entries_v(e@));
}

/// Looking a member up in the members or in their values agrees.
pub proof fn lemma_member_view(e: Seq<(String, Json)>, key: Seq<char>)
    ensures
        match member(e, key) {
            Some(v) => memberv(entries_v(e), key) == Some(json_view(v)),
            None => memberv(entries_v(e), key) is None,
        },
    decreases e.len(),
{
    if e.len() > 0 {
        assert(entries_v(e.drop_first()) =~= entries_v(e).drop_first());
        lemma_member_view(e.drop_first(), key);
    }
}

/// The member `key` of a value that is an object.
pub fn json_get<'a>(v: &'a Json, key: &str) -> (r: Option<&'a Json>)
    ensures
        match getv(v@, key@) {
            Some(x) => r matches Some(y) && y@ == x,
            None => r is None,
        },
{
    match v {
        Json::Object(e) => {
            proof {
                lemma_object_view(*e);
                lemma_member_view(e@, key@);
            }
            get_member(e, key)
        },
        _ => None,
    }
}

/// A copy of a JSON value.
#[verifier::loop_isolation(false)]
pub fn json_clone(j: &Json) -> (r: Json)
    ensures
        r@ == j@,
    decreases j,
{
    match j {
        Json::Null => Json::Null,
        Json::Bool(b) => Json::Bool(*b),
        Json::Number(n) => Json::Number(*n),
        Json::Decimal(t) => Json::Decimal(t.clone()),
        Json::Str(s) => Json::Str(s.clone()),
        Json::Array(a) => {
            let mut out: Vec<Json> = Vec::new();
            let mut i: usize = 0;
            while i < a.len()
                invariant
                    i <= a@.len(),
                    out@.len() == i,
                    forall|k: int| 0 <= k < i ==> (#[trigger] out@[k])@ == a@[k]@,
                decreases a@.len() - i,
            {
                proof {
                    assert(decreases_to!(*j => *a));
                    assert(decreases_to!(*a => a@));
                    assert(decreases_to!(a@ => a@[i as int]));
                }
                let c = json_clone(&a[i]);
                out.push(c);
                i = i + 1;
            }
            proof {
                lemma_array_view(out);
                lemma_array_view(*a);
                assert(values_v(out@) =~= values_v(a@));
            }
            Json::Array(out)
        },
        Json::Object(e) => {
            let mut out: Vec<(String, Json)> = Vec::new();
            let mut i: usize = 0;
            while i < e.len()
                invariant
                    i <= e@.len(),
                    out@.len() == i,
                    forall|k: int| 0 <= k < i ==> (#[trigger] out@[k]).0@ == e@[k].0@ && out@[k].1@ == e@[k].1@,
                decreases e@.len() - i,
            {
                proof {
                    assert(decreases_to!(*j => *e));
                    assert(decreases_to!(*e => e@));
                    assert(decreases_to!(e@ => e@[i as int]));
                    assert(decreases_to!(e@[i as int] => e@[i as int].1));
                }
                let c = json_clone(&e[i].1);
                out.push((e[i].0.clone(), c));
                i = i + 1;
            }
            proof {
                lemma_object_view(out);
                lemma_object_view(*e);
                assert(entries_v(out@) =~= entries_v(e@));
            }
            Json::Object(out)
        },
    }
}

/// The value of the member `key` of an object's members, if any.
pub open spec fn member(entries: Seq<(String, Json)>, key: Seq<char>) -> Option<Json>
    decreases entries.len(),
{
    if entries.len() == 0 {
        None
    } else if entries[0].0@ == key {
        Some(entries[0].1)
    } else {
        member(entries.drop_first(), key)
    }
}

/// The members without those named `key`.
pub open spec fn without(entries: Seq<(String, Json)>, key: Seq<char>) -> Seq<(String, Json)> {
    entries.filter(|e: (String, Json)| e.0@ != key)
}

/// Whether a Clevis configuration for `pin` gives a thumbprint for every
/// Tang server in it, looking at most `limit` levels deep. A Shamir
/// configuration is read pin by pin, in order, and the answer is no as soon
/// as one pin's answer is.
pub open spec fn tang_thp(pin: Seq<char>, config: Json, limit: nat) -> Result<bool, ErrorReason>
    decreases limit, 0nat,
{
    if limit == 0 {
        Err(ErrorReason::RecursionLimit)
    } else if pin == "tang"@ {
        match config {
            Json::Object(entries) => Ok(member(entries@, "thp"@) matches Some(Json::Str(_))),
            _ => Err(ErrorReason::NotAnObject),
        }
    } else if pin == "sss"@ {
        match config {
            Json::Object(entries) => match member(entries@, "pins"@) {
                Some(Json::Object(pins)) => pins_thp(pins@, (limit - 1) as nat),
                _ => Err(ErrorReason::UnexpectedClevisFormat),
            },
            _ => Err(ErrorReason::NotAnObject),
        }
    } else if pin == "tpm2"@ {
        Ok(true)
    } else {
        Err(ErrorReason::UnrecognizedPin)
    }
}

/// The pins of a Shamir configuration read in order: the first error or the
/// first no decides; yes when every pin says yes.
pub open spec fn pins_thp(pins: Seq<(String, Json)>, limit: nat) -> Result<bool, ErrorReason>
    decreases limit, pins.len(),
{
    if pins.len() == 0 {
        Ok(true)
    } else {
        match tang_thp(pins[0].0@, pins[0].1, limit) {
            Err(e) => Err(e),
            Ok(false) => Ok(false),
            Ok(true) => pins_thp(pins.drop_first(), limit),
        }
    }
}

proof fn lemma_pins_step(pins: Seq<(String, Json)>, limit: nat, i: int)
    requires
        0 <= i < pins.len(),
    ensures
        pins_thp(pins.skip(i), limit) == match tang_thp(pins[i].0@, pins[i].1, limit) {
            Err(e) => Err(e),
            Ok(false) => Ok(false),
            Ok(true) => pins_thp(pins.skip(i + 1), limit),
        },
{
    assert(pins.skip(i)[0] == pins[i]);
    assert(pins.skip(i).drop_first() =~= pins.skip(i + 1));
}

/// The value of a member of an object, if there is one.
pub fn get_member<'a>(entries: &'a Vec<(String, Json)>, key: &str) -> (r: Option<&'a Json>)
    ensures
        match member(entries@, key@) {
            Some(v) => r == Some(&v),
            None => r is None,
        },
{
    let mut i: usize = 0;
    proof {
        assert(entries@.skip(0) =~= entries@);
    }
    while i < entries.len()
        invariant
            i <= entries@.len(),
            member(entries@, key@) == member(entries@.skip(i as int), key@),
        decreases entries@.len() - i,
    {
        proof {
            assert(entries@.skip(i as int)[0] == entries@[i as int]);
            assert(entries@.skip(i as int).drop_first() =~= entries@.skip(i as int + 1));
        }
        if crate::table::str_eq(entries[i].0.as_str(), key) {
            return Some(&entries[i].1);
        }
        i = i + 1;
    }
    None
}

/// Whether every Tang server in the configuration for `pin` has a
/// thumbprint; see `tang_thp`.
pub fn all_tang_configs_have_thp(pin: &str, clevis_config: &Json, recursion_limit: u64) -> (r: Result<bool, StratisError>)
    ensures
        match tang_thp(pin@, *clevis_config, recursion_limit as nat) {
            Ok(b) => r == Ok::<bool, StratisError>(b),
            Err(e) => r == Err::<bool, StratisError>(StratisError::Msg(e)),
        },
    decreases recursion_limit,
{
    proof {
        reveal_strlit("tang");
        reveal_strlit("sss");
        reveal_strlit("tpm2");
        reveal_strlit("thp");
        reveal_strlit("pins");
    }
    if recursion_limit == 0 {
        return Err(StratisError::Msg(ErrorReason::RecursionLimit));
    }
    if crate::table::str_eq(pin, "tang") {
        match clevis_config {
            Json::Object(entries) => {
                let has = match get_member(entries, "thp") {
                    Some(Json::Str(_)) => true,
                    _ => false,
                };
                Ok(has)
            },
            _ => Err(StratisError::Msg(ErrorReason::NotAnObject)),
        }
    } else if crate::table::str_eq(pin, "sss") {
        match clevis_config {
            Json::Object(entries) => match get_member(entries, "pins") {
                Some(Json::Object(pins)) => {
                    let limit = recursion_limit - 1;
                    let mut i: usize = 0;
                    proof {
                        assert(pins@.skip(0) =~= pins@);
                        assert(pin@ != "tang"@);
                        assert(tang_thp(pin@, *clevis_config, recursion_limit as nat) == pins_thp(pins@, limit as nat));
                    }
                    while i < pins.len()
                        invariant
                            i <= pins@.len(),
                            limit < recursion_limit,
                            pins_thp(pins@, limit as nat) == pins_thp(pins@.skip(i as int), limit as nat),
                            tang_thp(pin@, *clevis_config, recursion_limit as nat) == pins_thp(pins@, limit as nat),
                        decreases pins@.len() - i,
                    {
                        proof {
                            lemma_pins_step(pins@, limit as nat, i as int);
                        }
                        match all_tang_configs_have_thp(pins[i].0.as_str(), &pins[i].1, limit) {
                            Err(e) => {
                                return Err(e);
                            },
                            Ok(false) => {
                                return Ok(false);
                            },
                            Ok(true) => {},
                        }
                        i = i + 1;
                    }
                    proof {
                        assert(pins@.skip(pins@.len() as int) =~= Seq::<(String, Json)>::empty());
                    }
                    Ok(true)
                },
                _ => Err(StratisError::Msg(ErrorReason::UnexpectedClevisFormat)),
            },
            _ => Err(StratisError::Msg(ErrorReason::NotAnObject)),
        }
    } else if crate::table::str_eq(pin, "tpm2") {
        Ok(true)
    } else {
        Err(StratisError::Msg(ErrorReason::UnrecognizedPin))
    }
}

/// Whether the trust member, when present, is `true`.
pub open spec fn trusts_all(entries: Seq<(String, Json)>) -> bool {
    member(entries, CLEVIS_TANG_TRUST_URL@) == Some(Json::Bool(true))
}

/// Read and strip the members of a Clevis configuration that are not meant
/// for Clevis. The answer is whether binding is to trust every Tang server
/// (the trust member of a Tang or Shamir configuration is `true`); the
/// trust member is removed from such a configuration. Refused when a Tang
/// server lacks a thumbprint and trust was not given.
pub fn interpret_clevis_config(pin: &str, clevis_config: &mut Json) -> (r: Result<bool, StratisError>)
    ensures
        match tang_thp(pin@, *old(clevis_config), CLEVIS_RECURSION_LIMIT as nat) {
            Err(e) => r == Err::<bool, StratisError>(StratisError::Msg(e)) && *final(clevis_config) == *old(clevis_config),
            Ok(all_thp) => if pin@ == "tang"@ || pin@ == "sss"@ {
                match *old(clevis_config) {
                    Json::Object(entries) => {
                        &&& (*final(clevis_config) matches Json::Object(e2) && e2@ == without(entries@, CLEVIS_TANG_TRUST_URL@))
                        &&& if !all_thp && !trusts_all(entries@) {
                            r == Err::<bool, StratisError>(StratisError::Msg(ErrorReason::ThumbprintOrTrustRequired))
                        } else {
                            r == Ok::<bool, StratisError>(trusts_all(entries@))
                        }
                    },
                    _ => r == Err::<bool, StratisError>(StratisError::Msg(ErrorReason::NotAnObject))
                        && *final(clevis_config) == *old(clevis_config),
                }
            } else {
                &&& *final(clevis_config) == *old(clevis_config)
                &&& if !all_thp {
                    r == Err::<bool, StratisError>(StratisError::Msg(ErrorReason::ThumbprintOrTrustRequired))
                } else {
                    r == Ok::<bool, StratisError>(false)
                }
            },
        },
{
    let all_tang_has_thp = match all_tang_configs_have_thp(pin, clevis_config, CLEVIS_RECURSION_LIMIT) {
        Ok(b) => b,
        Err(e) => {
            return Err(e);
        },
    };
    proof {
        reveal_strlit("tang");
        reveal_strlit("sss");
    }
    let yes = if crate::table::str_eq(pin, "tang") || crate::table::str_eq(pin, "sss") {
        match clevis_config {
            Json::Object(entries) => remove_trust(entries),
            _ => {
                return Err(StratisError::Msg(ErrorReason::NotAnObject));
            },
        }
    } else {
        false
    };
    if !all_tang_has_thp && !yes {
        return Err(StratisError::Msg(ErrorReason::ThumbprintOrTrustRequired));
    }
    Ok(yes)
}

/// Remove the trust member; returns whether it was `true`.
fn remove_trust(entries: &mut Vec<(String, Json)>) -> (r: bool)
    ensures
        final(entries)@ == without(old(entries)@, CLEVIS_TANG_TRUST_URL@),
        r == trusts_all(old(entries)@),
{
    let trust = match get_member(entries, CLEVIS_TANG_TRUST_URL) {
        Some(Json::Bool(b)) => *b,
        _ => false,
    };
    let ghost orig = entries@;
    let mut rest: Vec<(String, Json)> = Vec::new();
    std::mem::swap(&mut rest, entries);
    let mut kept: Vec<(String, Json)> = Vec::new();
    let ghost mut i: int = 0;
    proof {
        reveal(Seq::filter);
        assert(orig.take(0) =~= Seq::<(String, Json)>::empty());
        assert(orig.skip(0) =~= orig);
    }
    while rest.len() > 0
        invariant
            0 <= i <= orig.len(),
            rest@ == orig.skip(i),
            kept@ == without(orig.take(i), CLEVIS_TANG_TRUST_URL@),
        decreases rest@.len(),
    {
        let e = rest.remove(0);
        proof {
            assert(e == orig[i]);
            lemma_without_step(orig, CLEVIS_TANG_TRUST_URL@, i);
        }
        if !crate::table::str_eq(e.0.as_str(), CLEVIS_TANG_TRUST_URL) {
            kept.push(e);
        }
        proof {
            i = i + 1;
            assert(rest@ =~= orig.skip(i));
        }
    }
    proof {
        assert(orig.take(i) =~= orig);
    }
    *entries = kept;
    trust
}

proof fn lemma_without_step(s: Seq<(String, Json)>, key: Seq<char>, i: int)
    requires
        0 <= i < s.len(),
    ensures
        without(s.take(i + 1), key) == if s[i].0@ != key {
            without(s.take(i), key).push(s[i])
        } else {
            without(s.take(i), key)
        },
{
    reveal(Seq::filter);
    assert(s.take(i + 1).drop_last() =~= s.take(i));
}

} // verus!
