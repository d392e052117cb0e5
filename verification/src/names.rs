use vstd::prelude::*;
use vstd::string::StringSliceAdditionalSpecFns;
use crate::errors::{NameViolation, StratisError};

verus! {

/// The most bytes a pool or filesystem name may take.
pub const MAXIMUM_NAME_SIZE: usize = 255;

/// Unicode White_Space characters, which `str::trim` removes.
pub open spec fn is_white_space(c: char) -> bool {
    let u = c as u32;
    (0x9 <= u <= 0xd) || u == 0x20 || u == 0x85 || u == 0xa0 || u == 0x1680 || (0x2000 <= u
        <= 0x200a) || u == 0x2028 || u == 0x2029 || u == 0x202f || u == 0x205f || u == 0x3000
}

/// Characters of the Unicode general category Cc (control codes).
pub open spec fn is_control(c: char) -> bool {
    let u = c as u32;
    u <= 0x1f || (0x7f <= u <= 0x9f)
}

/// ASCII characters that may appear in a name: those that udev accepts in
/// a symlink name.
pub open spec fn is_allowed_ascii(c: char) -> bool {
    ('0' <= c <= '9') || ('A' <= c <= 'Z') || ('a' <= c <= 'z') || c == '#' || ('+' <= c <= '.')
        || c == ':' || c == '=' || c == '@' || c == '_' || c == '/'
}

/// An ASCII character that may not appear in a name.
pub open spec fn is_disallowed_ascii(c: char) -> bool {
    (c as u32) < 128 && !is_allowed_ascii(c)
}

/// Index of the first '/' in `s`, or its length if there is none.
pub open spec fn first_slash(s: Seq<char>) -> nat
    decreases s.len(),
{
    if s.len() == 0 {
        0
    } else if s[0] == '/' {
        0
    } else {
        1 + first_slash(s.drop_first())
    }
}

/// Components that one '/'-delimited segment contributes to a path: none if
/// it is empty, none if it is "." other than at the start of the path, one
/// otherwise.
pub open spec fn segment_components(seg: Seq<char>, first: bool) -> nat {
    if seg.len() == 0 {
        0
    } else if seg == seq!['.'] {
        if first {
            1
        } else {
            0
        }
    } else {
        1
    }
}

/// The number of components (root excluded) of a Unix path, as
/// `std::path::Path::components` counts them: repeated and trailing
/// separators are ignored, and "." is dropped except at the very start.
pub open spec fn path_components(s: Seq<char>, first: bool) -> nat
    decreases s.len(),
{
    let k = first_slash(s);
    if k >= s.len() {
        segment_components(s, first)
    } else {
        segment_components(s.take(k as int), first) + path_components(
            s.skip(k as int + 1),
            false,
        )
    }
}

/// A Unix path is absolute when it starts with '/'.
pub open spec fn is_absolute(s: Seq<char>) -> bool {
    s.len() > 0 && s[0] == '/'
}

/// The first rule, in the order they are checked, that the name breaks, if
/// any. `byte_len` is the length of its UTF-8 encoding.
pub open spec fn name_violation(s: Seq<char>, byte_len: nat) -> Option<NameViolation> {
    if s.len() == 0 {
        Some(NameViolation::Empty)
    } else if s.contains('\0') {
        Some(NameViolation::ContainsNull)
    } else if s == seq!['.'] || s == seq!['.', '.'] {
        Some(NameViolation::DotOrDotDot)
    } else if byte_len > MAXIMUM_NAME_SIZE {
        Some(NameViolation::TooLong)
    } else if is_white_space(s[0]) || is_white_space(s.last()) {
        Some(NameViolation::LeadingOrTrailingSpace)
    } else if exists|i: int| 0 <= i < s.len() && is_control(#[trigger] s[i]) {
        Some(NameViolation::ControlCharacter)
    } else if exists|i: int| 0 <= i < s.len() && is_disallowed_ascii(#[trigger] s[i]) {
        Some(NameViolation::DisallowedCharacter)
    } else if path_components(s, true) > 1 || is_absolute(s) {
        Some(NameViolation::DirectoryPath)
    } else {
        None
    }
}

/// The first rule that a name, given as text, breaks, if any; its length
/// in bytes is the one a `usize` holds.
pub open spec fn name_error(s: Seq<char>) -> Option<NameViolation> {
    name_violation(s, (vstd::utf8::encode_utf8(s).len() as usize) as nat)
}

/// Check a name held in a `String`.
pub fn validate_name_string(name: &String) -> (r: Result<(), StratisError>)
    ensures
        match name_error(name@) {
            None => r is Ok,
            Some(v) => r matches Err(StratisError::InvalidName(w, n)) && w == v && n@ == name@,
        },
{
    validate_name(name.as_str())
}

fn is_white_space_exec(c: char) -> (r: bool)
    ensures
        r == is_white_space(c),
{
    let u = c as u32;
    (0x9 <= u && u <= 0xd) || u == 0x20 || u == 0x85 || u == 0xa0 || u == 0x1680 || (0x2000 <= u
        && u <= 0x200a) || u == 0x2028 || u == 0x2029 || u == 0x202f || u == 0x205f || u == 0x3000
}

fn is_control_exec(c: char) -> (r: bool)
    ensures
        r == is_control(c),
{
    let u = c as u32;
    u <= 0x1f || (0x7f <= u && u <= 0x9f)
}

fn is_disallowed_ascii_exec(c: char) -> (r: bool)
    ensures
        r == is_disallowed_ascii(c),
{
    let allowed = ('0' <= c && c <= '9') || ('A' <= c && c <= 'Z') || ('a' <= c && c <= 'z') || c
        == '#' || ('+' <= c && c <= '.') || c == ':' || c == '=' || c == '@' || c == '_' || c
        == '/';
    (c as u32) < 128 && !allowed
}

proof fn lemma_first_slash(s: Seq<char>, k: int)
    requires
        0 <= k <= s.len(),
        forall|j: int| 0 <= j < k ==> s[j] != '/',
        k < s.len() ==> s[k] == '/',
    ensures
        first_slash(s) == k,
    decreases s.len(),
{
    if s.len() > 0 && k > 0 {
        lemma_first_slash(s.drop_first(), k - 1);
    }
}

/// Count the components of `s` as `path_components(s, true)` defines them.
pub fn count_path_components(s: &str) -> (r: usize)
    ensures
        r == path_components(s@, true),
{
    let n = s.unicode_len();
    let mut count: usize = 0;
    let mut first = true;
    let mut seg_start: usize = 0;
    let mut i: usize = 0;
    let ghost full = s@;
    assert(full.skip(0) =~= full);
    while i < n
        invariant
            n == full.len(),
            full == s@,
            seg_start <= i <= n,
            count <= seg_start,
            forall|j: int| seg_start <= j < i ==> full[j] != '/',
            count + path_components(full.skip(seg_start as int), first) == path_components(
                full,
                true,
            ),
        decreases n - i,
    {
        let c = s.get_char(i);
        if c == '/' {
            let ghost t = full.skip(seg_start as int);
            let k = i - seg_start;
            proof {
                lemma_first_slash(t, k as int);
                assert(t.take(k as int) =~= full.subrange(seg_start as int, i as int));
                assert(t.skip(k as int + 1) =~= full.skip(i as int + 1));
            }
            let is_dot = k == 1 && s.get_char(seg_start) == '.';
            proof {
                if k == 1 {
                    assert(t.take(1) =~= seq![full[seg_start as int]]);
                }
                if is_dot {
                    assert(t.take(k as int) =~= seq!['.']);
                }
            }
            if k > 0 && (!is_dot || first) {
                count = count + 1;
            }
            first = false;
            seg_start = i + 1;
        }
        i = i + 1;
    }
    let ghost t = full.skip(seg_start as int);
    let k = n - seg_start;
    proof {
        lemma_first_slash(t, k as int);
    }
    let is_dot = k == 1 && s.get_char(seg_start) == '.';
    proof {
        if k == 1 {
            assert(t =~= seq![full[seg_start as int]]);
        }
    }
    if k > 0 && (!is_dot || first) {
        count = count + 1;
    }
    count
}

/// Check that a string may be used as the name of a pool or filesystem.
#[verifier::loop_isolation(false)]
pub fn validate_name(name: &str) -> (r: Result<(), StratisError>)
    ensures
        match name_violation(name@, name.len() as nat) {
            None => r is Ok,
            Some(v) => r matches Err(StratisError::InvalidName(w, n)) && w == v && n@ == name@,
        },
{
    let n = name.unicode_len();
    if n == 0 {
        return Err(StratisError::InvalidName(NameViolation::Empty, name.to_owned()));
    }
    let mut i: usize = 0;
    while i < n
        invariant
            n == name@.len(),
            i <= n,
            forall|j: int| 0 <= j < i ==> name@[j] != '\0',
        decreases n - i,
    {
        if name.get_char(i) == '\0' {
            proof {
                assert(name@.contains('\0'));
            }
            return Err(StratisError::InvalidName(NameViolation::ContainsNull, name.to_owned()));
        }
        i = i + 1;
    }
    proof {
        assert(!name@.contains('\0'));
    }
    let is_dot = n == 1 && name.get_char(0) == '.';
    let is_dot_dot = n == 2 && name.get_char(0) == '.' && name.get_char(1) == '.';
    proof {
        if n == 1 {
            assert(name@ =~= seq![name@[0]]);
        }
        if n == 2 {
            assert(name@ =~= seq![name@[0], name@[1]]);
        }
        if name@ == seq!['.'] || name@ == seq!['.', '.'] {
            assert(is_dot || is_dot_dot);
        }
    }
    if is_dot || is_dot_dot {
        return Err(StratisError::InvalidName(NameViolation::DotOrDotDot, name.to_owned()));
    }
    if name.len() > MAXIMUM_NAME_SIZE {
        return Err(StratisError::InvalidName(NameViolation::TooLong, name.to_owned()));
    }
    if is_white_space_exec(name.get_char(0)) || is_white_space_exec(name.get_char(n - 1)) {
        return Err(StratisError::InvalidName(NameViolation::LeadingOrTrailingSpace, name.to_owned()));
    }
    let mut i: usize = 0;
    while i < n
        invariant
            n == name@.len(),
            i <= n,
            forall|j: int| 0 <= j < i ==> !is_control(name@[j]),
        decreases n - i,
    {
        if is_control_exec(name.get_char(i)) {
            proof {
                assert(is_control(name@[i as int]));
            }
            return Err(StratisError::InvalidName(NameViolation::ControlCharacter, name.to_owned()));
        }
        i = i + 1;
    }
    let mut i: usize = 0;
    while i < n
        invariant
            n == name@.len(),
            i <= n,
            forall|j: int| 0 <= j < i ==> !is_disallowed_ascii(name@[j]),
        decreases n - i,
    {
        if is_disallowed_ascii_exec(name.get_char(i)) {
            proof {
                assert(is_disallowed_ascii(name@[i as int]));
            }
            return Err(StratisError::InvalidName(NameViolation::DisallowedCharacter, name.to_owned()));
        }
        i = i + 1;
    }
    if count_path_components(name) > 1 || name.get_char(0) == '/' {
        return Err(StratisError::InvalidName(NameViolation::DirectoryPath, name.to_owned()));
    }
    Ok(())
}

/// Whether a path string is absolute.
pub fn path_is_absolute(p: &str) -> (r: bool)
    ensures
        r == is_absolute(p@),
{
    let n = p.unicode_len();
    n > 0 && p.get_char(0) == '/'
}

/// A character that udev accepts in a symlink name: an ASCII digit or
/// letter, or one of `#`, `+`, `,`, `-`, `.`, `:`, `=`, `@`, `_` and `/`.
pub open spec fn udev_symlink_char(c: char) -> bool {
    ||| ('0' <= c <= '9')
    ||| ('A' <= c <= 'Z')
    ||| ('a' <= c <= 'z')
    ||| seq!['#', '+', ',', '-', '.', ':', '=', '@', '_', '/'].contains(c)
}

/// No character that udev accepts in a symlink name is refused as a
/// disallowed character, and every other ASCII character is.
pub proof fn law_udev_characters(c: char)
    ensures
        (c as u32) < 128 ==> (is_disallowed_ascii(c) <==> !udev_symlink_char(c)),
        !((c as u32) < 128) ==> !is_disallowed_ascii(c),
{
    let set = seq!['#', '+', ',', '-', '.', ':', '=', '@', '_', '/'];
    if set.contains(c) {
        let k = choose|k: int| 0 <= k < set.len() && set[k] == c;
        assert(is_allowed_ascii(c));
    }
    if is_allowed_ascii(c) && !('0' <= c <= '9') && !('A' <= c <= 'Z') && !('a' <= c <= 'z') {
        if c == '#' {
            assert(set[0] == c);
        } else if c == '+' {
            assert(set[1] == c);
        } else if c == ',' {
            assert(set[2] == c);
        } else if c == '-' {
            assert(set[3] == c);
        } else if c == '.' {
            assert(set[4] == c);
        } else if c == ':' {
            assert(set[5] == c);
        } else if c == '=' {
            assert(set[6] == c);
        } else if c == '@' {
            assert(set[7] == c);
        } else if c == '_' {
            assert(set[8] == c);
        } else {
            assert(set[9] == c);
        }
    }
}

/// A name made only of characters that udev accepts in a symlink name,
/// without a '/', that is not "." or "..", and that is at most
/// `MAXIMUM_NAME_SIZE` bytes long, breaks no rule: `validate_name` accepts
/// it.
pub proof fn law_udev_names_accepted(s: Seq<char>, byte_len: nat)
    requires
        s.len() > 0,
        s != seq!['.'],
        s != seq!['.', '.'],
        byte_len <= MAXIMUM_NAME_SIZE,
        forall|i: int| 0 <= i < s.len() ==> udev_symlink_char(#[trigger] s[i]) && s[i] != '/',
    ensures
        name_violation(s, byte_len) is None,
{
    assert forall|i: int| 0 <= i < s.len() implies !is_disallowed_ascii(#[trigger] s[i]) && !is_control(s[i])
        && s[i] != '\0' && !is_white_space(s[i]) by {
        law_udev_characters(s[i]);
        let c = s[i];
        let set = seq!['#', '+', ',', '-', '.', ':', '=', '@', '_', '/'];
        if set.contains(c) {
            let k = choose|k: int| 0 <= k < set.len() && set[k] == c;
        }
    }
    if s.contains('\0') {
        let k = choose|k: int| 0 <= k < s.len() && s[k] == '\0';
        assert(s[k] != '\0');
    }
    assert(s.last() == s[s.len() - 1]);
    lemma_first_slash(s, s.len() as int);
}

} // verus!
