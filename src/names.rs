//! Profile names, artifact names and the paths the reconciler works with.
use vstd::prelude::*;

verus! {

/// The pattern that a profile name must match in full.
pub const PROFILE_NAME_PATTERN: &'static str = "^[A-Za-z0-9_-]+$";

/// A character allowed in a profile name.
pub open spec fn is_name_char(c: char) -> bool {
    ('A' <= c && c <= 'Z') || ('a' <= c && c <= 'z') || ('0' <= c && c <= '9') || c == '_' || c
        == '-'
}

/// A valid profile name: non-empty, ASCII letters, digits, `_` and `-` only.
pub open spec fn is_profile_name(s: Seq<char>) -> bool {
    s.len() > 0 && forall|i: int| 0 <= i < s.len() ==> is_name_char(#[trigger] s[i])
}

/// The executable suffix of the generated artifacts.
pub open spec fn exe_suffix() -> Seq<char> {
    seq!['.', 'e', 'x', 'e']
}

/// The artifact (executable file) name of an instance name.
pub open spec fn artifact_name(stem: Seq<char>) -> Seq<char> {
    stem + exe_suffix()
}

/// The executable suffix as a string.
pub fn exe_suffix_str() -> (r: &'static str)
    ensures
        r@ == exe_suffix(),
{
    proof {
        reveal_strlit(".exe");
    }
    ".exe"
}

/// The artifact file name of the instance `stem`: the stem with `.exe` appended.
pub fn exe_name(stem: &str) -> (r: String)
    ensures
        r@ == artifact_name(stem@),
{
    let mut r = String::from_str(stem);
    r.append(exe_suffix_str());
    r
}

/// Relies on `regex::Regex::new` and `Regex::is_match`: the pattern
/// `^[A-Za-z0-9_-]+$` compiles, and, its anchors standing for the two ends of
/// the haystack, it matches exactly the non-empty haystacks made of ASCII
/// letters, digits, `_` and `-`.
#[verifier::external_body]
fn matches_profile_pattern(pattern: &str, name: &str) -> (r: bool)
    requires
        pattern@ == PROFILE_NAME_PATTERN@,
    ensures
        r == is_profile_name(name@),
{
    match regex::Regex::new(pattern) {
        Ok(re) => re.is_match(name),
        Err(_) => false,
    }
}

/// Whether `name` is a valid profile name.
pub fn is_valid_profile_name(name: &str) -> (r: bool)
    ensures
        r == is_profile_name(name@),
{
    matches_profile_pattern(PROFILE_NAME_PATTERN, name)
}

/// A path separator.
pub open spec fn is_sep(c: char) -> bool {
    c == '/' || c == '\\'
}

/// Length of `p[..n]` once its trailing separators are cut off.
pub open spec fn strip_seps_len(p: Seq<char>, n: int) -> int
    decreases n,
{
    if 0 < n <= p.len() && is_sep(p[n - 1]) {
        strip_seps_len(p, n - 1)
    } else {
        n
    }
}

/// Index of the last separator in `p[..n]`, or -1 when there is none.
pub open spec fn last_sep_before(p: Seq<char>, n: int) -> int
    decreases n,
{
    if n <= 0 || n > p.len() {
        -1
    } else if is_sep(p[n - 1]) {
        n - 1
    } else {
        last_sep_before(p, n - 1)
    }
}

/// Length of the prefix of `p[..n]` that is its parent directory: the path
/// without its last component and the separators before it. A component
/// right under the root keeps the root; a single component has no parent.
pub open spec fn parent_len(p: Seq<char>, n: int) -> Option<int> {
    let q = strip_seps_len(p, n);
    let k = last_sep_before(p, q);
    if k < 0 {
        None
    } else if strip_seps_len(p, k) == 0 {
        Some(1)
    } else {
        Some(strip_seps_len(p, k))
    }
}

/// The directory two levels above the path `p`, as a prefix length.
pub open spec fn grandparent_len(p: Seq<char>) -> Option<int> {
    match parent_len(p, p.len() as int) {
        Some(e) => parent_len(p, e),
        None => None,
    }
}

pub(crate) fn strip_seps(p: &Vec<char>, n: usize) -> (r: usize)
    requires
        n <= p@.len(),
    ensures
        r == strip_seps_len(p@, n as int),
        r <= n,
{
    let mut m: usize = n;
    while m > 0 && (p[m - 1] == '/' || p[m - 1] == '\\')
        invariant
            m <= n <= p@.len(),
            strip_seps_len(p@, m as int) == strip_seps_len(p@, n as int),
        decreases m,
    {
        m = m - 1;
    }
    m
}

fn parent_of(p: &Vec<char>, n: usize) -> (r: Option<usize>)
    requires
        n <= p@.len(),
    ensures
        r matches Some(e) ==> parent_len(p@, n as int) == Some(e as int) && e <= n,
        r is None ==> parent_len(p@, n as int) is None,
{
    let q = strip_seps(p, n);
    let mut k: usize = q;
    while k > 0 && !(p[k - 1] == '/' || p[k - 1] == '\\')
        invariant
            k <= q <= p@.len(),
            last_sep_before(p@, k as int) == last_sep_before(p@, q as int),
        decreases k,
    {
        k = k - 1;
    }
    if k == 0 {
        return None;
    }
    let d = strip_seps(p, k - 1);
    if d == 0 {
        Some(1)
    } else {
        Some(d)
    }
}

/// The workspace root of a crate that sits two directories below it: the
/// grandparent directory of `manifest_dir`, if it has one.
pub fn workspace_root(manifest_dir: &str) -> (r: Option<String>)
    ensures
        r matches Some(root) ==> grandparent_len(manifest_dir@) matches Some(e) && root@
            == manifest_dir@.subrange(0, e),
        r is None ==> grandparent_len(manifest_dir@) is None,
{
    let p = crate::text::chars_of(manifest_dir);
    match parent_of(&p, p.len()) {
        None => None,
        Some(e1) => match parent_of(&p, e1) {
            None => None,
            Some(e2) => Some(String::from_str(manifest_dir.substring_char(0, e2))),
        },
    }
}

} // verus!
