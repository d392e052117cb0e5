use vstd::prelude::*;
use crate::errors::{ErrorReason, StratisError};
use crate::keys::{EncryptionInfo, PoolEncryptionInfo};
use crate::names::{is_absolute, path_is_absolute};
use crate::types::{CreateAction, DevUuid, Diff, MaybeInconsistent, PoolUuid, SetCreateAction};
use crate::units::{Bytes, Sectors};

verus! {

/// Size of a new filesystem when the request gives none: 1 TiB.
pub const DEFAULT_THIN_DEV_SIZE: u64 = 2147483648;

/// Smallest filesystem size or size limit allowed: 512 MiB.
pub const MIN_THIN_DEV_SIZE: u64 = 1048576;

/// The set of texts of a list of strings.
pub open spec fn str_set(v: Seq<String>) -> Set<Seq<char>> {
    Set::new(|s: Seq<char>| exists|i: int| 0 <= i < v.len() && v[i]@ == s)
}

/// No text occurs twice in the list.
pub open spec fn strs_distinct(v: Seq<String>) -> bool {
    forall|i: int, j: int| 0 <= i < v.len() && 0 <= j < v.len() && i != j ==> v[i]@ != v[j]@
}

/// Whether `s` occurs in `v`.
pub fn contains_str(v: &Vec<String>, s: &String) -> (r: bool)
    ensures
        r == str_set(v@).contains(s@),
{
    let mut i: usize = 0;
    while i < v.len()
        invariant
            i <= v@.len(),
            forall|j: int| 0 <= j < i ==> v@[j]@ != s@,
        decreases v@.len() - i,
    {
        if v[i].eq(s) {
            return true;
        }
        i = i + 1;
    }
    false
}

/// The texts of `a` that are not in `b`, each once, in the order of `a`.
pub fn str_difference(a: &Vec<String>, b: &Vec<String>) -> (r: Vec<String>)
    ensures
        str_set(r@) == str_set(a@).difference(str_set(b@)),
        strs_distinct(r@),
{
    let mut r: Vec<String> = Vec::new();
    let mut i: usize = 0;
    while i < a.len()
        invariant
            i <= a@.len(),
            strs_distinct(r@),
            str_set(r@) == str_set(a@.take(i as int)).difference(str_set(b@)),
        decreases a@.len() - i,
    {
        let ghost before = r@;
        let in_b = contains_str(b, &a[i]);
        let in_r = contains_str(&r, &a[i]);
        if !in_b && !in_r {
            r.push(a[i].clone());
            proof {
                assert forall|p: int, q: int| 0 <= p < r@.len() && 0 <= q < r@.len() && p != q implies r@[p]@
                    != r@[q]@ by {
                    if p == before.len() {
                        assert(!str_set(before).contains(r@[p]@));
                        assert(before[q] == r@[q]);
                    } else if q == before.len() {
                        assert(!str_set(before).contains(r@[q]@));
                        assert(before[p] == r@[p]);
                    }
                }
            }
        }
        proof {
            let t0 = a@.take(i as int);
            let t1 = a@.take(i as int + 1);
            let x = a@[i as int];
            assert(t1 =~= t0.push(x));
            assert forall|s: Seq<char>| str_set(t1).contains(s) <==> (str_set(t0).contains(s) || s
                == x@) by {
                if str_set(t1).contains(s) {
                    let j = choose|j: int| 0 <= j < t1.len() && t1[j]@ == s;
                    if j < t0.len() {
                        assert(t0[j]@ == s);
                    }
                }
                if str_set(t0).contains(s) {
                    let j = choose|j: int| 0 <= j < t0.len() && t0[j]@ == s;
                    assert(t1[j]@ == s);
                }
                if s == x@ {
                    assert(t1[t0.len() as int]@ == s);
                }
            }
            assert forall|s: Seq<char>| str_set(r@).contains(s) <==> (str_set(before).contains(s)
                || (r@.len() > before.len() && s == x@)) by {
                if str_set(r@).contains(s) {
                    let j = choose|j: int| 0 <= j < r@.len() && r@[j]@ == s;
                    if j < before.len() {
                        assert(before[j]@ == s);
                    }
                }
                if str_set(before).contains(s) {
                    let j = choose|j: int| 0 <= j < before.len() && before[j]@ == s;
                    assert(r@[j]@ == s);
                }
                if r@.len() > before.len() && s == x@ {
                    assert(r@[before.len() as int]@ == s);
                }
            }
            assert(!in_b && !in_r ==> r@.len() == before.len() + 1);
            assert(!(!in_b && !in_r) ==> r@ == before);
            assert forall|s: Seq<char>| #![auto] str_set(r@).contains(s) <==> str_set(t1).difference(
                str_set(b@),
            ).contains(s) by {
                assert(str_set(r@).contains(s) <==> (str_set(before).contains(s) || (r@.len()
                    > before.len() && s == x@)));
                assert(str_set(t1).contains(s) <==> (str_set(t0).contains(s) || s == x@));
                if s == x@ {
                    if in_b {
                        assert(str_set(b@).contains(s));
                    } else if in_r {
                        assert(str_set(before).contains(s));
                    }
                }
            }
            assert(str_set(r@) =~= str_set(t1).difference(str_set(b@)));
        }
        i = i + 1;
    }
    assert(a@.take(a@.len() as int) =~= a@);
    r
}

/// The text of each string of the list.
pub open spec fn strs_view(v: Seq<String>) -> Seq<Seq<char>> {
    v.map_values(|s: String| s@)
}

/// The paths of the list that are not absolute, in list order.
pub open spec fn non_absolute(paths: Seq<String>) -> Seq<Seq<char>>
    decreases paths.len(),
{
    if paths.len() == 0 {
        Seq::empty()
    } else {
        let rest = non_absolute(paths.drop_last());
        if is_absolute(paths.last()@) {
            rest
        } else {
            rest.push(paths.last()@)
        }
    }
}

/// Check that every path is absolute; otherwise name those that are not,
/// in the order of the list.
pub fn validate_paths(paths: &Vec<String>) -> (r: Result<(), StratisError>)
    ensures
        r is Ok <==> forall|i: int| 0 <= i < paths@.len() ==> is_absolute(#[trigger] paths@[i]@),
        r is Err ==> (r matches Err(StratisError::PathsNotAbsolute(bad)) && strs_view(bad@) == non_absolute(paths@)),
{
    let mut bad: Vec<String> = Vec::new();
    let mut i: usize = 0;
    while i < paths.len()
        invariant
            i <= paths@.len(),
            forall|j: int| 0 <= j < bad@.len() ==> !is_absolute(#[trigger] bad@[j]@)
                && str_set(paths@).contains(bad@[j]@),
            forall|j: int| 0 <= j < i && !is_absolute(#[trigger] paths@[j]@) ==> str_set(
                bad@,
            ).contains(paths@[j]@),
            bad@.len() == 0 ==> forall|j: int| 0 <= j < i ==> is_absolute(#[trigger] paths@[j]@),
            strs_view(bad@) == non_absolute(paths@.take(i as int)),
        decreases paths@.len() - i,
    {
        proof {
            assert(paths@.take(i + 1).drop_last() =~= paths@.take(i as int));
        }
        if !path_is_absolute(paths[i].as_str()) {
            let ghost before = bad@;
            bad.push(paths[i].clone());
            proof {
                assert(bad@[before.len() as int]@ == paths@[i as int]@);
                assert(str_set(paths@).contains(paths@[i as int]@));
                assert forall|j: int| 0 <= j < i + 1 && !is_absolute(#[trigger] paths@[j]@) implies str_set(
                    bad@,
                ).contains(paths@[j]@) by {
                    if j < i {
                        let k = choose|k: int| 0 <= k < before.len() && before[k]@ == paths@[j]@;
                        assert(bad@[k]@ == paths@[j]@);
                    }
                }
                assert(strs_view(bad@) =~= strs_view(before).push(paths@[i as int]@));
            }
        }
        i = i + 1;
    }
    proof {
        assert(paths@.take(paths@.len() as int) =~= paths@);
    }
    if bad.len() == 0 {
        Ok(())
    } else {
        proof {
            let b0 = bad@[0];
            let k = choose|k: int| 0 <= k < paths@.len() && paths@[k]@ == b0@;
            assert(!is_absolute(paths@[k]@));
        }
        Err(StratisError::PathsNotAbsolute(bad))
    }
}

/// Validate an optional filesystem size given in bytes, converting it to
/// sectors.
pub fn validate_filesystem_size(name: &String, size_opt: Option<Bytes>) -> (r: Result<
    Option<Sectors>,
    StratisError,
>)
    ensures
        match size_opt {
            None => r == Ok::<Option<Sectors>, StratisError>(None),
            Some(b) => if b.0 % 512 != 0 || b.0 / 512 > u64::MAX {
                r == Err::<Option<Sectors>, StratisError>(
                    StratisError::SizeNotSectorMultiple(*name),
                )
            } else if b.0 / 512 < MIN_THIN_DEV_SIZE {
                r == Err::<Option<Sectors>, StratisError>(
                    StratisError::SizeTooSmall(*name, (b.0 / 512) as u64),
                )
            } else {
                r == Ok::<Option<Sectors>, StratisError>(Some(Sectors((b.0 / 512) as u64)))
            },
        },
{
    match size_opt {
        None => Ok(None),
        Some(size) => {
            if size.0 / 512 > u64::MAX as u128 {
                return Err(StratisError::SizeNotSectorMultiple(name.clone()));
            }
            let size_sectors = size.sectors();
            if size_sectors.bytes().0 != size.0 {
                Err(StratisError::SizeNotSectorMultiple(name.clone()))
            } else if size_sectors.0 < MIN_THIN_DEV_SIZE {
                Err(StratisError::SizeTooSmall(name.clone(), size_sectors.0))
            } else {
                Ok(Some(size_sectors))
            }
        },
    }
}

/// The sectors of a requested size, when it is acceptable.
pub open spec fn accepted_size(b: u128) -> bool {
    b % 512 == 0 && b / 512 <= u64::MAX && b / 512 >= MIN_THIN_DEV_SIZE
}

/// A filesystem request: name, size and size limit in bytes.
pub struct FsSpec {
    pub name: String,
    pub size: Option<Bytes>,
    pub size_limit: Option<Bytes>,
}

/// A validated filesystem request: name, size and optional limit in sectors.
pub struct ValidFsSpec {
    pub name: String,
    pub size: Sectors,
    pub size_limit: Option<Sectors>,
}

/// Whether a request is acceptable on its own.
pub open spec fn fs_spec_ok(s: FsSpec) -> bool {
    (s.size matches Some(b) ==> accepted_size(b.0)) && (s.size_limit matches Some(b)
        ==> accepted_size(b.0))
}

/// The sectors a request asks for.
pub open spec fn spec_size_of(s: FsSpec) -> Sectors {
    match s.size {
        None => Sectors(DEFAULT_THIN_DEV_SIZE),
        Some(b) => Sectors((b.0 / 512) as u64),
    }
}

/// The sector limit a request asks for.
pub open spec fn spec_limit_of(s: FsSpec) -> Option<Sectors> {
    match s.size_limit {
        None => None,
        Some(b) => Some(Sectors((b.0 / 512) as u64)),
    }
}

/// Validate a list of filesystem requests. When a name occurs more than
/// once, its last request is the one kept; each name appears once in the
/// result. The first unacceptable request, in order, gives the error.
pub fn validate_filesystem_size_specs(specs: &Vec<FsSpec>) -> (r: Result<
    Vec<ValidFsSpec>,
    StratisError,
>)
    ensures
        r is Ok <==> forall|i: int| 0 <= i < specs@.len() ==> fs_spec_ok(#[trigger] specs@[i]),
        r matches Ok(v) ==> valid_specs_of(specs@, v@),
        r matches Err(e) ==> exists|a: int| first_bad_spec(specs@, a) && e == spec_error(specs@[a]),
{
    let n = specs.len();
    let mut vals: Vec<(Sectors, Option<Sectors>)> = Vec::new();
    let mut i: usize = 0;
    while i < n
        invariant
            n == specs@.len(),
            i <= n,
            vals@.len() == i,
            forall|a: int| 0 <= a < i ==> fs_spec_ok(#[trigger] specs@[a]),
            forall|a: int| 0 <= a < i ==> #[trigger] vals@[a] == (spec_size_of(specs@[a]), spec_limit_of(specs@[a])),
        decreases n - i,
    {
        let spec = &specs[i];
        let size = match validate_filesystem_size(&spec.name, spec.size) {
            Ok(Some(s)) => s,
            Ok(None) => Sectors(DEFAULT_THIN_DEV_SIZE),
            Err(e) => {
                proof {
                    assert(first_bad_spec(specs@, i as int));
                }
                return Err(e);
            },
        };
        let limit = match validate_filesystem_size(&spec.name, spec.size_limit) {
            Ok(l) => l,
            Err(e) => {
                proof {
                    assert(first_bad_spec(specs@, i as int));
                }
                return Err(e);
            },
        };
        vals.push((size, limit));
        i = i + 1;
    }
    let mut out: Vec<ValidFsSpec> = Vec::new();
    let mut i: usize = n;
    while i > 0
        invariant
            n == specs@.len(),
            vals@.len() == n,
            i <= n,
            forall|a: int| 0 <= a < n ==> #[trigger] vals@[a] == (spec_size_of(specs@[a]), spec_limit_of(specs@[a])),
            forall|p: int, q: int|
                0 <= p < out@.len() && 0 <= q < out@.len() && p != q ==> out@[p].name@ != out@[q].name@,
            forall|a: int| i <= a < n ==> #[trigger] fs_names(out@).contains(specs@[a].name@),
            forall|j: int| 0 <= j < out@.len() ==> #[trigger] kept_from(specs@, out@[j], i as int),
        decreases i,
    {
        let ghost old_i = i;
        i = i - 1;
        let present = contains_fs_name(&out, &specs[i].name);
        if !present {
            let ghost before = out@;
            let entry = ValidFsSpec { name: specs[i].name.clone(), size: vals[i].0, size_limit: vals[i].1 };
            out.push(entry);
            proof {
                let a = i as int;
                assert forall|k: int| a < k < n implies specs@[k].name@ != specs@[a].name@ by {
                    if specs@[k].name@ == specs@[a].name@ {
                        assert(fs_names(before).contains(specs@[k].name@));
                    }
                }
                assert(kept_from(specs@, out@[before.len() as int], i as int));
                assert forall|j: int| 0 <= j < out@.len() implies #[trigger] kept_from(specs@, out@[j], i as int) by {
                    if j < before.len() {
                        assert(out@[j] == before[j]);
                        assert(kept_from(specs@, before[j], old_i as int));
                    }
                }
                assert forall|x: int| i <= x < n implies #[trigger] fs_names(out@).contains(specs@[x].name@) by {
                    if x == i {
                        assert(out@[before.len() as int].name@ == specs@[x].name@);
                    } else {
                        assert(fs_names(before).contains(specs@[x].name@));
                        let j = choose|j: int| 0 <= j < before.len() && before[j].name@ == specs@[x].name@;
                        assert(out@[j] == before[j]);
                    }
                }
                assert forall|p: int, q: int|
                    0 <= p < out@.len() && 0 <= q < out@.len() && p != q implies out@[p].name@ != out@[q].name@ by {
                    if p == before.len() {
                        assert(out@[q] == before[q]);
                    } else if q == before.len() {
                        assert(out@[p] == before[p]);
                    }
                }
            }
        } else {
            proof {
                assert forall|j: int| 0 <= j < out@.len() implies #[trigger] kept_from(specs@, out@[j], i as int) by {
                    assert(kept_from(specs@, out@[j], old_i as int));
                }
            }
        }
    }
    Ok(out)
}

/// The error for a size in bytes that is not acceptable for the filesystem
/// `name`.
pub open spec fn size_error(name: String, b: Bytes) -> StratisError {
    if b.0 % 512 != 0 || b.0 / 512 > u64::MAX {
        StratisError::SizeNotSectorMultiple(name)
    } else {
        StratisError::SizeTooSmall(name, (b.0 / 512) as u64)
    }
}

/// The error an unacceptable request is refused with: its size is checked
/// before its limit.
pub open spec fn spec_error(s: FsSpec) -> StratisError {
    match s.size {
        Some(b) if !accepted_size(b.0) => size_error(s.name, b),
        _ => match s.size_limit {
            Some(b) => size_error(s.name, b),
            None => StratisError::SizeNotSectorMultiple(s.name),
        },
    }
}

/// The request at `a` is the first unacceptable one.
pub open spec fn first_bad_spec(specs: Seq<FsSpec>, a: int) -> bool {
    &&& 0 <= a < specs.len()
    &&& !fs_spec_ok(specs[a])
    &&& forall|b: int| 0 <= b < a ==> fs_spec_ok(#[trigger] specs[b])
}

/// No later request has the same name as the request at `a`.
pub open spec fn last_for_name(specs: Seq<FsSpec>, a: int) -> bool {
    forall|k: int| a < k < specs.len() ==> #[trigger] specs[k].name@ != specs[a].name@
}

/// The last request for `name` asks for `size` and `limit`.
pub open spec fn is_last_request(specs: Seq<FsSpec>, name: Seq<char>, size: Sectors, limit: Option<Sectors>) -> bool {
    exists|a: int|
        0 <= a < specs.len() && #[trigger] specs[a].name@ == name && last_for_name(specs, a)
            && spec_size_of(specs[a]) == size && spec_limit_of(specs[a]) == limit
}

/// The names of a list of validated requests.
pub open spec fn fs_names(v: Seq<ValidFsSpec>) -> Set<Seq<char>> {
    Set::new(|s: Seq<char>| exists|j: int| 0 <= j < v.len() && v[j].name@ == s)
}

/// `e` is the last request, at or after `from`, for its name.
pub open spec fn kept_from(specs: Seq<FsSpec>, e: ValidFsSpec, from: int) -> bool {
    exists|a: int|
        from <= a < specs.len() && specs[a].name@ == e.name@ && e.size == spec_size_of(specs[a])
            && e.size_limit == spec_limit_of(specs[a]) && forall|k: int|
            a < k < specs.len() ==> specs[k].name@ != specs[a].name@
}

/// `v` holds, once per name, the last request for each name in `specs`.
pub open spec fn valid_specs_of(specs: Seq<FsSpec>, v: Seq<ValidFsSpec>) -> bool {
    &&& forall|p: int, q: int| 0 <= p < v.len() && 0 <= q < v.len() && p != q ==> v[p].name@ != v[q].name@
    &&& forall|a: int| 0 <= a < specs.len() ==> #[trigger] fs_names(v).contains(specs[a].name@)
    &&& forall|j: int| 0 <= j < v.len() ==> #[trigger] kept_from(specs, v[j], 0)
}

/// Every request has an entry of its name among the validated ones, and the
/// last request for a name gives that entry's size and limit.
pub proof fn lemma_valid_entry_for(specs: Seq<FsSpec>, v: Seq<ValidFsSpec>, a: int) -> (j: int)
    requires
        valid_specs_of(specs, v),
        0 <= a < specs.len(),
    ensures
        0 <= j < v.len(),
        v[j].name@ == specs[a].name@,
        last_for_name(specs, a) ==> v[j].size == spec_size_of(specs[a]) && v[j].size_limit
            == spec_limit_of(specs[a]),
{
    assert(fs_names(v).contains(specs[a].name@));
    let j = choose|j: int| 0 <= j < v.len() && v[j].name@ == specs[a].name@;
    assert(kept_from(specs, v[j], 0));
    let b = choose|b: int|
        0 <= b < specs.len() && specs[b].name@ == v[j].name@ && v[j].size == spec_size_of(specs[b])
            && v[j].size_limit == spec_limit_of(specs[b]) && forall|k: int|
            b < k < specs.len() ==> specs[k].name@ != specs[b].name@;
    if last_for_name(specs, a) {
        if a < b {
            assert(specs[b].name@ != specs[a].name@);
        } else if b < a {
            assert(specs[a].name@ != specs[b].name@);
        }
    }
    j
}

/// A validated entry is the last request for its name.
pub proof fn lemma_valid_entry_is_last(specs: Seq<FsSpec>, v: Seq<ValidFsSpec>, j: int)
    requires
        valid_specs_of(specs, v),
        0 <= j < v.len(),
    ensures
        is_last_request(specs, v[j].name@, v[j].size, v[j].size_limit),
        exists|a: int| 0 <= a < specs.len() && #[trigger] specs[a].name@ == v[j].name@ && last_for_name(specs, a),
{
    assert(kept_from(specs, v[j], 0));
    let b = choose|b: int|
        0 <= b < specs.len() && specs[b].name@ == v[j].name@ && v[j].size == spec_size_of(specs[b])
            && v[j].size_limit == spec_limit_of(specs[b]) && forall|k: int|
            b < k < specs.len() ==> specs[k].name@ != specs[b].name@;
    assert(last_for_name(specs, b));
}

/// Whether a validated request with this name is in the list.
pub fn contains_fs_name(v: &Vec<ValidFsSpec>, name: &String) -> (r: bool)
    ensures
        r == fs_names(v@).contains(name@),
{
    let mut i: usize = 0;
    while i < v.len()
        invariant
            i <= v@.len(),
            forall|j: int| 0 <= j < i ==> v@[j].name@ != name@,
        decreases v@.len() - i,
    {
        if v[i].name.eq(name) {
            return true;
        }
        i = i + 1;
    }
    false
}


/// The number of present values in a list of optional values.
pub open spec fn count_present<T>(s: Seq<Option<T>>) -> nat
    decreases s.len(),
{
    if s.len() == 0 {
        0
    } else {
        count_present(s.drop_last()) + if s.last() is Some {
            1nat
        } else {
            0nat
        }
    }
}

proof fn lemma_count_present_step<T>(s: Seq<Option<T>>, i: int)
    requires
        0 <= i < s.len(),
    ensures
        count_present(s.take(i + 1)) == count_present(s.take(i)) + if s[i] is Some {
            1nat
        } else {
            0nat
        },
{
    assert(s.take(i + 1).drop_last() =~= s.take(i));
}

proof fn lemma_count_present_bounds<T>(s: Seq<Option<T>>)
    ensures
        count_present(s) <= s.len(),
        count_present(s) == 0 <==> forall|i: int| 0 <= i < s.len() ==> s[i] is None,
        count_present(s) == s.len() <==> forall|i: int| 0 <= i < s.len() ==> s[i] is Some,
    decreases s.len(),
{
    if s.len() > 0 {
        let t = s.drop_last();
        lemma_count_present_bounds(t);
        assert forall|i: int| 0 <= i < t.len() implies t[i] == s[i] by {}
        if count_present(s) == 0 {
            assert forall|i: int| 0 <= i < s.len() implies s[i] is None by {
                if i < t.len() {
                    assert(t[i] == s[i]);
                }
            }
        }
        if count_present(s) == s.len() {
            assert forall|i: int| 0 <= i < s.len() implies s[i] is Some by {
                if i < t.len() {
                    assert(t[i] == s[i]);
                }
            }
        }
        if forall|i: int| 0 <= i < s.len() ==> s[i] is None {
            assert forall|i: int| 0 <= i < t.len() implies t[i] is None by {
                assert(t[i] == s[i]);
            }
        }
        if forall|i: int| 0 <= i < s.len() ==> s[i] is Some {
            assert forall|i: int| 0 <= i < t.len() implies t[i] is Some by {
                assert(t[i] == s[i]);
            }
        }
    }
}

/// Gather the encryption information of the devices of a pool: none when no
/// device is encrypted, the pool's information when all of the `len`
/// devices are, and an error when only some are.
pub fn gather_encryption_info(len: usize, infos: &Vec<Option<EncryptionInfo>>) -> (r: Result<
    Option<PoolEncryptionInfo>,
    StratisError,
>)
    ensures
        count_present(infos@) == 0 ==> r is Ok && r->Ok_0 is None,
        count_present(infos@) != 0 && count_present(infos@) == len ==> (r matches Ok(Some(pei))
            && pei.is_summary_of(present_infos(infos@))),
        count_present(infos@) != 0 && count_present(infos@) != len ==> r
            == Err::<Option<PoolEncryptionInfo>, StratisError>(StratisError::MixedEncryption),
{
    let mut present: Vec<&EncryptionInfo> = Vec::new();
    let mut i: usize = 0;
    while i < infos.len()
        invariant
            i <= infos@.len(),
            present@.len() == count_present(infos@.take(i as int)),
            forall|k: int| 0 <= k < present@.len() ==> #[trigger] present_infos(infos@).contains(*present@[k]),
            present@.len() > 0 ==> exists|k: int| 0 <= k < i && infos@[k] == Some(*present@[0]),
            forall|k: int| 0 <= k < i && infos@[k] is Some ==> exists|m: int| 0 <= m < present@.len() && *present@[m] == infos@[k]->Some_0,
        decreases infos@.len() - i,
    {
        proof {
            lemma_count_present_step(infos@, i as int);
        }
        match &infos[i] {
            Some(info) => {
                let ghost before = present@;
                present.push(info);
                proof {
                    assert(present_infos(infos@).contains(*info));
                    assert forall|k: int| 0 <= k < i + 1 && infos@[k] is Some implies exists|m: int| 0 <= m < present@.len() && *present@[m] == infos@[k]->Some_0 by {
                        if k < i {
                            let m = choose|m: int| 0 <= m < before.len() && *before[m] == infos@[k]->Some_0;
                            assert(present@[m] == before[m]);
                        } else {
                            assert(*present@[before.len() as int] == infos@[k]->Some_0);
                        }
                    }
                }
            },
            None => {},
        }
        i = i + 1;
    }
    proof {
        assert(infos@.take(infos@.len() as int) =~= infos@);
        lemma_count_present_bounds(infos@);
    }
    if present.len() == 0 {
        Ok(None)
    } else if present.len() == len {
        let pei = PoolEncryptionInfo::summarize(&present);
        proof {
            let pset = Set::new(|e: EncryptionInfo| exists|m: int| 0 <= m < present@.len() && *present@[m] == e);
            assert forall|e: EncryptionInfo| #[trigger] present_infos(infos@).contains(e) <==> pset.contains(e) by {
                if present_infos(infos@).contains(e) {
                    let k = choose|k: int| 0 <= k < infos@.len() && infos@[k] == Some(e);
                    assert(infos@[k] is Some);
                }
                if pset.contains(e) {
                    let m = choose|m: int| 0 <= m < present@.len() && *present@[m] == e;
                    assert(present_infos(infos@).contains(*present@[m]));
                }
            }
            assert(present_infos(infos@) =~= pset);
        }
        Ok(Some(pei))
    } else {
        Err(StratisError::MixedEncryption)
    }
}

/// The encryption informations present in a list.
pub open spec fn present_infos(s: Seq<Option<EncryptionInfo>>) -> Set<EncryptionInfo> {
    Set::new(|e: EncryptionInfo| exists|k: int| 0 <= k < s.len() && s[k] == Some(e))
}

/// The pool name gathered from `names`, which holds the name recorded on
/// each device that records one: the last such name when all agree, and
/// `Yes` (inconsistent) otherwise.
pub open spec fn gathered_name(names: Seq<Option<Seq<char>>>) -> MaybeInconsistent<Option<Seq<char>>> {
    if forall|i: int, j: int| 0 <= i < names.len() && 0 <= j < names.len() ==> names[i] == names[j] {
        MaybeInconsistent::No(names.last())
    } else {
        MaybeInconsistent::Yes
    }
}

/// The recorded names of those devices that record one, in order.
pub open spec fn present_names(s: Seq<Option<Option<String>>>) -> Seq<Option<Seq<char>>>
    decreases s.len(),
{
    if s.len() == 0 {
        Seq::empty()
    } else {
        let rest = present_names(s.drop_last());
        match s.last() {
            Some(Some(n)) => rest.push(Some(n@)),
            Some(None) => rest.push(None),
            None => rest,
        }
    }
}

proof fn lemma_present_names_len(s: Seq<Option<Option<String>>>)
    ensures
        present_names(s).len() == count_present(s),
    decreases s.len(),
{
    if s.len() > 0 {
        lemma_present_names_len(s.drop_last());
    }
}

/// Gather the pool name recorded on the `len` devices of a pool. `names`
/// holds, per device, nothing when the device records no name information
/// (unencrypted), and otherwise the optional name it records.
pub fn gather_pool_name(len: usize, names: &Vec<Option<Option<String>>>) -> (r: Result<
    Option<MaybeInconsistent<Option<String>>>,
    StratisError,
>)
    ensures
        count_present(names@) == 0 ==> r is Ok && r->Ok_0 is None,
        count_present(names@) != 0 && count_present(names@) == len ==> (r matches Ok(Some(m))
            && gathered_view(m) == gathered_name(present_names(names@))),
        count_present(names@) != 0 && count_present(names@) != len ==> r == Err::<
            Option<MaybeInconsistent<Option<String>>>,
            StratisError,
        >(StratisError::MixedEncryption),
{
    let mut flat: Vec<Option<String>> = Vec::new();
    let mut i: usize = 0;
    while i < names.len()
        invariant
            i <= names@.len(),
            flat@.len() == count_present(names@.take(i as int)),
            opt_views(flat@) == present_names(names@.take(i as int)),
        decreases names@.len() - i,
    {
        proof {
            lemma_count_present_step(names@, i as int);
            assert(names@.take(i as int + 1).drop_last() =~= names@.take(i as int));
        }
        match &names[i] {
            Some(n) => {
                let c = match n {
                    Some(x) => Some(x.clone()),
                    None => None,
                };
                let ghost before = flat@;
                flat.push(c);
                proof {
                    assert(opt_views(flat@) =~= opt_views(before).push(opt_view(c)));
                }
            },
            None => {},
        }
        i = i + 1;
    }
    proof {
        assert(names@.take(names@.len() as int) =~= names@);
        lemma_count_present_bounds(names@);
        lemma_present_names_len(names@);
    }
    if flat.len() == 0 {
        return Ok(None);
    }
    if flat.len() != len {
        return Err(StratisError::MixedEncryption);
    }
    let last = flat.len() - 1;
    let mut all_same = true;
    let mut k: usize = 0;
    while k < flat.len()
        invariant
            k <= flat@.len(),
            last == flat@.len() - 1,
            all_same == forall|j: int| 0 <= j < k ==> opt_view(flat@[j]) == opt_view(flat@[last as int]),
        decreases flat@.len() - k,
    {
        let same = match (&flat[k], &flat[last]) {
            (Some(a), Some(b)) => a.eq(b),
            (None, None) => true,
            _ => false,
        };
        all_same = all_same && same;
        k = k + 1;
    }
    let ghost pn = opt_views(flat@);
    proof {
        if all_same {
            assert forall|i: int, j: int| 0 <= i < pn.len() && 0 <= j < pn.len() implies pn[i] == pn[j] by {
                assert(opt_view(flat@[i]) == opt_view(flat@[last as int]));
                assert(opt_view(flat@[j]) == opt_view(flat@[last as int]));
            }
        } else {
            let j = choose|j: int| !(0 <= j < flat@.len() ==> opt_view(flat@[j]) == opt_view(flat@[last as int]));
            assert(pn[j] != pn[last as int]);
        }
    }
    if all_same {
        let v = flat.pop().unwrap();
        Ok(Some(MaybeInconsistent::No(v)))
    } else {
        Ok(Some(MaybeInconsistent::Yes))
    }
}

/// Some device of the list records the name information `v`.
pub open spec fn records_name(s: Seq<Option<Option<String>>>, v: Option<Seq<char>>) -> bool {
    exists|i: int| #![trigger s[i]] 0 <= i < s.len() && (s[i] matches Some(o) && opt_view(o) == v)
}

proof fn lemma_count_present_multiset(s: Seq<Option<Option<String>>>)
    ensures
        count_present(s) + s.to_multiset().count(None) == s.len(),
    decreases s.len(),
{
    broadcast use vstd::seq_lib::group_to_multiset_ensures, vstd::multiset::group_multiset_axioms;

    if s.len() == 0 {
        assert(s.to_multiset() =~= vstd::multiset::Multiset::empty());
    } else {
        let t = s.drop_last();
        lemma_count_present_multiset(t);
        assert(s =~= t.push(s.last()));
    }
}

proof fn lemma_present_names_contains(s: Seq<Option<Option<String>>>, v: Option<Seq<char>>)
    ensures
        present_names(s).contains(v) <==> records_name(s, v),
    decreases s.len(),
{
    if s.len() > 0 {
        let t = s.drop_last();
        lemma_present_names_contains(t, v);
        let rest = present_names(t);
        if records_name(t, v) {
            let i = choose|i: int| #![trigger t[i]] 0 <= i < t.len() && (t[i] matches Some(o) && opt_view(o) == v);
            assert(s[i] == t[i]);
            let k = choose|k: int| 0 <= k < rest.len() && rest[k] == v;
            match s.last() {
                Some(Some(n)) => assert(rest.push(Some(n@))[k] == v),
                Some(None) => assert(rest.push(None)[k] == v),
                None => {},
            }
        }
        if records_name(s, v) && !records_name(t, v) {
            let i = choose|i: int| #![trigger s[i]] 0 <= i < s.len() && (s[i] matches Some(o) && opt_view(o) == v);
            if i < t.len() {
                assert(t[i] == s[i]);
            }
            assert(i == s.len() - 1);
            match s.last() {
                Some(Some(n)) => assert(rest.push(Some(n@))[rest.len() as int] == v),
                Some(None) => assert(rest.push(None)[rest.len() as int] == v),
                None => {},
            }
        }
        if present_names(s).contains(v) && !records_name(t, v) {
            let k = choose|k: int| 0 <= k < present_names(s).len() && present_names(s)[k] == v;
            match s.last() {
                Some(Some(n)) => {
                    if k < rest.len() {
                        assert(rest.push(Some(n@))[k] == rest[k]);
                        assert(rest.contains(v));
                    }
                    assert(s[s.len() - 1] == s.last());
                },
                Some(None) => {
                    if k < rest.len() {
                        assert(rest.push(None)[k] == rest[k]);
                        assert(rest.contains(v));
                    }
                    assert(s[s.len() - 1] == s.last());
                },
                None => {
                    assert(rest.contains(v));
                },
            }
        }
    }
}

proof fn lemma_gathered_name_by_contents(a: Seq<Option<Seq<char>>>, b: Seq<Option<Seq<char>>>)
    requires
        forall|v: Option<Seq<char>>| a.contains(v) <==> b.contains(v),
    ensures
        gathered_name(a) == gathered_name(b),
{
    if a.len() == 0 || b.len() == 0 {
        if a.len() > 0 {
            assert(a.contains(a[0]));
        }
        if b.len() > 0 {
            assert(b.contains(b[0]));
        }
        assert(a =~= b);
    } else {
        let same_a = forall|i: int, j: int| 0 <= i < a.len() && 0 <= j < a.len() ==> a[i] == a[j];
        let same_b = forall|i: int, j: int| 0 <= i < b.len() && 0 <= j < b.len() ==> b[i] == b[j];
        assert(a.contains(a.last()));
        assert(b.contains(b.last()));
        if same_a {
            assert forall|i: int, j: int| 0 <= i < b.len() && 0 <= j < b.len() implies b[i] == b[j] by {
                assert(b.contains(b[i]));
                assert(b.contains(b[j]));
                let p = choose|p: int| 0 <= p < a.len() && a[p] == b[i];
                let q = choose|q: int| 0 <= q < a.len() && a[q] == b[j];
            }
            let p = choose|p: int| 0 <= p < a.len() && a[p] == b.last();
        }
        if same_b {
            assert forall|i: int, j: int| 0 <= i < a.len() && 0 <= j < a.len() implies a[i] == a[j] by {
                assert(a.contains(a[i]));
                assert(a.contains(a[j]));
                let p = choose|p: int| 0 <= p < b.len() && b[p] == a[i];
                let q = choose|q: int| 0 <= q < b.len() && b[q] == a[j];
            }
        }
    }
}

/// The pool name gathered from the devices of a pool does not depend on
/// the order in which the devices are listed: two lists that hold the same
/// items, each as often, count as many recorded names and gather the same
/// name, so `gather_pool_name` gives the same result for both.
pub proof fn law_gather_pool_name_order(a: Seq<Option<Option<String>>>, b: Seq<Option<Option<String>>>)
    requires
        a.to_multiset() == b.to_multiset(),
    ensures
        count_present(a) == count_present(b),
        gathered_name(present_names(a)) == gathered_name(present_names(b)),
{
    broadcast use vstd::seq_lib::group_to_multiset_ensures;

    lemma_count_present_multiset(a);
    lemma_count_present_multiset(b);
    vstd::seq_lib::to_multiset_len(a);
    vstd::seq_lib::to_multiset_len(b);
    assert(a.len() == b.len());
    assert(a.to_multiset().count(None) == b.to_multiset().count(None));
    assert forall|v: Option<Seq<char>>| present_names(a).contains(v) <==> present_names(b).contains(v) by {
        lemma_present_names_contains(a, v);
        lemma_present_names_contains(b, v);
        if records_name(a, v) {
            let i = choose|i: int| #![trigger a[i]] 0 <= i < a.len() && (a[i] matches Some(o) && opt_view(o) == v);
            assert(a.contains(a[i]));
            assert(b.to_multiset().count(a[i]) > 0);
            let j = choose|j: int| 0 <= j < b.len() && b[j] == a[i];
        }
        if records_name(b, v) {
            let i = choose|i: int| #![trigger b[i]] 0 <= i < b.len() && (b[i] matches Some(o) && opt_view(o) == v);
            assert(b.contains(b[i]));
            assert(a.to_multiset().count(b[i]) > 0);
            let j = choose|j: int| 0 <= j < a.len() && a[j] == b[i];
        }
    }
    lemma_gathered_name_by_contents(present_names(a), present_names(b));
}

/// The mathematical value of an optional string.
pub open spec fn opt_view(o: Option<String>) -> Option<Seq<char>> {
    match o {
        Some(s) => Some(s@),
        None => None,
    }
}

/// The mathematical values of a list of optional strings.
pub open spec fn opt_views(s: Seq<Option<String>>) -> Seq<Option<Seq<char>>> {
    Seq::new(s.len(), |i: int| opt_view(s[i]))
}

/// The mathematical value of a gathered pool name.
pub open spec fn gathered_view(m: MaybeInconsistent<Option<String>>) -> MaybeInconsistent<Option<Seq<char>>> {
    match m {
        MaybeInconsistent::Yes => MaybeInconsistent::Yes,
        MaybeInconsistent::No(o) => MaybeInconsistent::No(opt_view(o)),
    }
}

/// The value held by a diff.
pub open spec fn diff_value<T>(d: Diff<T>) -> T {
    match d {
        Diff::Changed(v) => v,
        Diff::Unchanged(v) => v,
    }
}

/// Total space used: thin pool usage plus metadata size. It counts as
/// changed when usage changed, or when usage is known and the metadata size
/// changed.
pub fn total_used(used: &Diff<Option<Bytes>>, metadata_size: &Diff<Bytes>) -> (r: Diff<Option<Bytes>>)
    requires
        diff_value(*used) matches Some(u) ==> u.0 + diff_value(*metadata_size).0 <= u128::MAX,
    ensures
        diff_value(r) == match diff_value(*used) {
            Some(u) => Some(Bytes((u.0 + diff_value(*metadata_size).0) as u128)),
            None => None,
        },
        (r is Changed) == (*used is Changed || (diff_value(*used) is Some && *metadata_size is Changed)),
{
    let md = match metadata_size {
        Diff::Changed(m) => *m,
        Diff::Unchanged(m) => *m,
    };
    let (u, used_changed) = match used {
        Diff::Changed(u) => (*u, true),
        Diff::Unchanged(u) => (*u, false),
    };
    let md_changed = match metadata_size {
        Diff::Changed(_) => true,
        Diff::Unchanged(_) => false,
    };
    let changed = used_changed || (u.is_some() && md_changed);
    let total = match u {
        Some(b) => Some(Bytes(b.0 + md.0)),
        None => None,
    };
    if changed {
        Diff::Changed(total)
    } else {
        Diff::Unchanged(total)
    }
}

/// Total space allocated: allocated plus metadata size; changed when either
/// changed.
pub fn total_allocated(allocated: &Diff<Bytes>, metadata_size: &Diff<Bytes>) -> (r: Diff<Bytes>)
    requires
        diff_value(*allocated).0 + diff_value(*metadata_size).0 <= u128::MAX,
    ensures
        diff_value(r).0 == diff_value(*allocated).0 + diff_value(*metadata_size).0,
        (r is Changed) == (*allocated is Changed || *metadata_size is Changed),
{
    match (allocated, metadata_size) {
        (Diff::Unchanged(a), Diff::Unchanged(m)) => Diff::Unchanged(Bytes(a.0 + m.0)),
        (Diff::Changed(a), Diff::Unchanged(m)) => Diff::Changed(Bytes(a.0 + m.0)),
        (Diff::Unchanged(a), Diff::Changed(m)) => Diff::Changed(Bytes(a.0 + m.0)),
        (Diff::Changed(a), Diff::Changed(m)) => Diff::Changed(Bytes(a.0 + m.0)),
    }
}

/// A pool named in a create request already exists: the request is an
/// idempotent repeat when it names exactly the pool's data devices, and an
/// error naming the differences otherwise.
pub fn create_pool_idempotent_or_err(
    pool_name: &String,
    existing_data_devnodes: &Vec<String>,
    blockdev_paths: &Vec<String>,
) -> (r: Result<CreateAction<PoolUuid>, StratisError>)
    ensures
        str_set(blockdev_paths@) == str_set(existing_data_devnodes@) ==> r
            == Ok::<CreateAction<PoolUuid>, StratisError>(CreateAction::Identity),
        str_set(blockdev_paths@) != str_set(existing_data_devnodes@) ==> (r matches Err(
            StratisError::PoolDevicesDiffer(n, in_input, in_pool),
        ) && n@ == pool_name@ && str_set(in_input@) == str_set(blockdev_paths@).difference(
            str_set(existing_data_devnodes@),
        ) && str_set(in_pool@) == str_set(existing_data_devnodes@).difference(
            str_set(blockdev_paths@),
        )),
{
    let in_input = str_difference(blockdev_paths, existing_data_devnodes);
    let in_pool = str_difference(existing_data_devnodes, blockdev_paths);
    if in_input.len() == 0 && in_pool.len() == 0 {
        proof {
            lemma_sets_equal_from_differences(blockdev_paths@, existing_data_devnodes@, in_input@, in_pool@);
        }
        Ok(CreateAction::Identity)
    } else {
        proof {
            lemma_differences_nonempty(blockdev_paths@, existing_data_devnodes@, in_input@, in_pool@);
        }
        Err(StratisError::PoolDevicesDiffer(pool_name.clone(), in_input, in_pool))
    }
}

/// A cache is requested for a pool that already has one: the request is an
/// idempotent repeat when it names exactly the cache's devices (nothing new
/// is created), and an error naming the differences otherwise.
pub fn init_cache_idempotent_or_err(blockdev_paths: &Vec<String>, existing: &Vec<String>) -> (r: Result<
    SetCreateAction<DevUuid>,
    StratisError,
>)
    ensures
        str_set(blockdev_paths@) == str_set(existing@) ==> (r matches Ok(a) && a.changed@.len() == 0),
        str_set(blockdev_paths@) != str_set(existing@) ==> (r matches Err(
            StratisError::CacheDevicesDiffer(in_input, in_pool),
        ) && str_set(in_input@) == str_set(blockdev_paths@).difference(str_set(existing@))
            && str_set(in_pool@) == str_set(existing@).difference(str_set(blockdev_paths@))),
{
    let in_input = str_difference(blockdev_paths, existing);
    let in_pool = str_difference(existing, blockdev_paths);
    if in_input.len() == 0 && in_pool.len() == 0 {
        proof {
            lemma_sets_equal_from_differences(blockdev_paths@, existing@, in_input@, in_pool@);
        }
        Ok(SetCreateAction::empty())
    } else {
        proof {
            lemma_differences_nonempty(blockdev_paths@, existing@, in_input@, in_pool@);
        }
        Err(StratisError::CacheDevicesDiffer(in_input, in_pool))
    }
}

proof fn lemma_sets_equal_from_differences(a: Seq<String>, b: Seq<String>, d1: Seq<String>, d2: Seq<String>)
    requires
        d1.len() == 0,
        d2.len() == 0,
        str_set(d1) == str_set(a).difference(str_set(b)),
        str_set(d2) == str_set(b).difference(str_set(a)),
    ensures
        str_set(a) == str_set(b),
{
    assert forall|s: Seq<char>| str_set(a).contains(s) <==> str_set(b).contains(s) by {
        if str_set(a).contains(s) && !str_set(b).contains(s) {
            assert(str_set(d1).contains(s));
        }
        if str_set(b).contains(s) && !str_set(a).contains(s) {
            assert(str_set(d2).contains(s));
        }
    }
    assert(str_set(a) =~= str_set(b));
}

proof fn lemma_differences_nonempty(a: Seq<String>, b: Seq<String>, d1: Seq<String>, d2: Seq<String>)
    requires
        d1.len() != 0 || d2.len() != 0,
        str_set(d1) == str_set(a).difference(str_set(b)),
        str_set(d2) == str_set(b).difference(str_set(a)),
    ensures
        str_set(a) != str_set(b),
{
    if d1.len() != 0 {
        assert(str_set(d1).contains(d1[0]@));
    } else {
        assert(str_set(d2).contains(d2[0]@));
    }
}

} // verus!
