//! Reading the flat registry files: line splitting, trimming, comments and
//! ASCII case-insensitive comparison, all over `Seq<char>` models.
use vstd::prelude::*;

verus! {

/// The characters that `char::is_whitespace` accepts (Unicode `White_Space`).
pub open spec fn is_white(c: char) -> bool {
    ||| ('\u{9}' <= c && c <= '\u{d}')
    ||| c == ' '
    ||| c == '\u{85}'
    ||| c == '\u{a0}'
    ||| c == '\u{1680}'
    ||| ('\u{2000}' <= c && c <= '\u{200a}')
    ||| c == '\u{2028}'
    ||| c == '\u{2029}'
    ||| c == '\u{202f}'
    ||| c == '\u{205f}'
    ||| c == '\u{3000}'
}

pub fn is_white_char(c: char) -> (r: bool)
    ensures
        r == is_white(c),
{
    ('\u{9}' <= c && c <= '\u{d}') || c == ' ' || c == '\u{85}' || c == '\u{a0}' || c
        == '\u{1680}' || ('\u{2000}' <= c && c <= '\u{200a}') || c == '\u{2028}' || c
        == '\u{2029}' || c == '\u{202f}' || c == '\u{205f}' || c == '\u{3000}'
}

/// Number of leading white-space characters.
pub open spec fn lead_white(s: Seq<char>) -> nat
    decreases s.len(),
{
    if s.len() > 0 && is_white(s[0]) {
        1 + lead_white(s.drop_first())
    } else {
        0
    }
}

/// Number of trailing white-space characters.
pub open spec fn trail_white(s: Seq<char>) -> nat
    decreases s.len(),
{
    if s.len() > 0 && is_white(s.last()) {
        1 + trail_white(s.drop_last())
    } else {
        0
    }
}

/// `s` without leading and trailing white space, as `str::trim` gives it.
pub open spec fn trim(s: Seq<char>) -> Seq<char> {
    let t = s.subrange(lead_white(s) as int, s.len() as int);
    t.subrange(0, t.len() - trail_white(t))
}

proof fn lemma_lead_white(s: Seq<char>, a: int)
    requires
        0 <= a <= s.len(),
        forall|i: int| 0 <= i < a ==> is_white(#[trigger] s[i]),
        a == s.len() || !is_white(s[a]),
    ensures
        lead_white(s) == a,
    decreases a,
{
    if a > 0 {
        let t = s.drop_first();
        assert forall|i: int| 0 <= i < a - 1 implies is_white(#[trigger] t[i]) by {
            assert(t[i] == s[i + 1]);
        }
        if a - 1 < t.len() {
            assert(t[a - 1] == s[a]);
        }
        lemma_lead_white(t, a - 1);
    }
}

proof fn lemma_trail_white(s: Seq<char>, k: int)
    requires
        0 <= k <= s.len(),
        forall|i: int| s.len() - k <= i < s.len() ==> is_white(#[trigger] s[i]),
        k == s.len() || !is_white(s[s.len() - k - 1]),
    ensures
        trail_white(s) == k,
    decreases k,
{
    if k > 0 {
        let t = s.drop_last();
        assert forall|i: int| t.len() - (k - 1) <= i < t.len() implies is_white(#[trigger] t[i]) by {
            assert(t[i] == s[i]);
        }
        if k - 1 < t.len() {
            assert(t[t.len() - (k - 1) - 1] == s[s.len() - k - 1]);
        }
        lemma_trail_white(t, k - 1);
    }
}

/// The characters of `s`, in order.
pub fn chars_of(s: &str) -> (r: Vec<char>)
    ensures
        r@ == s@,
{
    let n = s.unicode_len();
    let mut r: Vec<char> = Vec::new();
    let mut i: usize = 0;
    while i < n
        invariant
            n == s@.len(),
            i <= n,
            r@ == s@.subrange(0, i as int),
        decreases n - i,
    {
        r.push(s.get_char(i));
        i = i + 1;
    }
    r
}

/// Bounds `(a, b)` of `v[lo..hi]` with its surrounding white space cut off.
pub fn trim_bounds(v: &Vec<char>, lo: usize, hi: usize) -> (r: (usize, usize))
    requires
        lo <= hi <= v@.len(),
    ensures
        lo <= r.0 <= r.1 <= hi,
        v@.subrange(r.0 as int, r.1 as int) == trim(v@.subrange(lo as int, hi as int)),
{
    let ghost s = v@.subrange(lo as int, hi as int);
    let mut a: usize = lo;
    while a < hi && is_white_char(v[a])
        invariant
            lo <= a <= hi <= v@.len(),
            s == v@.subrange(lo as int, hi as int),
            forall|i: int| lo <= i < a ==> is_white(#[trigger] v@[i]),
        decreases hi - a,
    {
        a = a + 1;
    }
    proof {
        assert forall|i: int| 0 <= i < a - lo implies is_white(#[trigger] s[i]) by {
            assert(s[i] == v@[lo + i]);
        }
        if a < hi {
            assert(s[a - lo] == v@[a as int]);
        }
        lemma_lead_white(s, a - lo);
    }
    let ghost t = s.subrange(a - lo, s.len() as int);
    assert(t == v@.subrange(a as int, hi as int));
    let mut b: usize = hi;
    while b > a && is_white_char(v[b - 1])
        invariant
            lo <= a <= b <= hi <= v@.len(),
            forall|i: int| b <= i < hi ==> is_white(#[trigger] v@[i]),
        decreases b,
    {
        b = b - 1;
    }
    proof {
        assert forall|i: int| t.len() - (hi - b) <= i < t.len() implies is_white(#[trigger] t[i]) by {
            assert(t[i] == v@[a + i]);
        }
        if b > a {
            assert(t[t.len() - (hi - b) - 1] == v@[b - 1]);
        }
        lemma_trail_white(t, hi - b);
    }
    assert(v@.subrange(a as int, b as int) == t.subrange(0, t.len() - trail_white(t)));
    (a, b)
}

/// The pieces of `s` between line feeds, as `str::split('\n')` gives them:
/// always at least one, the last one after the final line feed.
pub open spec fn segments(s: Seq<char>) -> Seq<Seq<char>>
    decreases s.len(),
{
    if s.len() == 0 {
        seq![Seq::empty()]
    } else {
        let p = segments(s.drop_last());
        if s.last() == '\n' {
            p.push(Seq::empty())
        } else {
            p.update(p.len() - 1, p.last().push(s.last()))
        }
    }
}

/// A trimmed line that carries a record: not blank and not a `#` comment.
pub open spec fn keep_record(t: Seq<char>) -> bool {
    t.len() > 0 && t[0] != '#'
}

/// The records of a sequence of lines: each line trimmed, blank and comment
/// lines left out, order kept.
pub open spec fn records_of(lines: Seq<Seq<char>>) -> Seq<Seq<char>>
    decreases lines.len(),
{
    if lines.len() == 0 {
        Seq::empty()
    } else {
        let r = records_of(lines.drop_last());
        let t = trim(lines.last());
        if keep_record(t) {
            r.push(t)
        } else {
            r
        }
    }
}

/// The records of a registry file: one per line, trimmed, with blank lines
/// and `#` comment lines ignored.
pub open spec fn records(s: Seq<char>) -> Seq<Seq<char>> {
    records_of(segments(s))
}

/// The character models of a sequence of strings.
pub open spec fn views(v: Seq<String>) -> Seq<Seq<char>> {
    v.map_values(|x: String| x@)
}

/// The views of a pushed sequence.
pub proof fn lemma_views_push(v: Seq<String>, x: String)
    ensures
        views(v.push(x)) == views(v).push(x@),
{
    assert(views(v.push(x)) =~= views(v).push(x@));
}

/// The views of a prefix.
pub proof fn lemma_views_prefix(v: Seq<String>, i: int)
    requires
        0 <= i < v.len(),
    ensures
        views(v).subrange(0, i + 1) == views(v).subrange(0, i).push(v[i]@),
{
    assert(views(v).subrange(0, i + 1) =~= views(v).subrange(0, i).push(v[i]@));
}

pub proof fn lemma_segments_nonempty(s: Seq<char>)
    ensures
        segments(s).len() >= 1,
    decreases s.len(),
{
    if s.len() > 0 {
        lemma_segments_nonempty(s.drop_last());
    }
}

/// The records of the text `s`, in order.
pub fn record_lines(s: &str) -> (r: Vec<String>)
    ensures
        views(r@) == records(s@),
{
    let v = chars_of(s);
    let n = v.len();
    let mut r: Vec<String> = Vec::new();
    let mut start: usize = 0;
    let mut i: usize = 0;
    proof {
        assert(v@.subrange(0, 0) == Seq::<char>::empty());
    }
    while i < n
        invariant
            n == v@.len(),
            v@ == s@,
            start <= i <= n,
            segments(v@.subrange(0, i as int)).len() >= 1,
            segments(v@.subrange(0, i as int)).last() == v@.subrange(start as int, i as int),
            views(r@) == records_of(segments(v@.subrange(0, i as int)).drop_last()),
        decreases n - i,
    {
        let ghost pre = v@.subrange(0, i as int);
        let ghost segs = segments(pre);
        let ghost post = v@.subrange(0, i + 1);
        assert(post.drop_last() == pre);
        assert(post.last() == v@[i as int]);
        if v[i] == '\n' {
            let (a, b) = trim_bounds(&v, start, i);
            assert(segments(post) == segs.push(Seq::empty()));
            assert(segments(post).drop_last() == segs);
            assert(segs.drop_last().push(segs.last()) == segs);
            let ghost t = trim(segs.last());
            assert(v@.subrange(a as int, b as int) == t);
            if a < b && v[a] != '#' {
                let line = String::from_str(s.substring_char(a, b));
                let ghost r0 = r@;
                r.push(line);
                assert(views(r@) =~= views(r0).push(t));
            }
            start = i + 1;
            assert(v@.subrange(start as int, i + 1) == Seq::<char>::empty());
        } else {
            assert(segments(post) == segs.update(segs.len() - 1, segs.last().push(v@[i as int])));
            assert(segments(post).drop_last() =~= segs.drop_last());
            assert(v@.subrange(start as int, i + 1) == v@.subrange(start as int, i as int).push(
                v@[i as int],
            ));
        }
        i = i + 1;
    }
    let (a, b) = trim_bounds(&v, start, n);
    let ghost segs = segments(v@.subrange(0, n as int));
    assert(v@.subrange(0, n as int) == v@);
    assert(segs.drop_last().push(segs.last()) == segs);
    if a < b && v[a] != '#' {
        let line = String::from_str(s.substring_char(a, b));
        let ghost r0 = r@;
        r.push(line);
        assert(views(r@) =~= views(r0).push(v@.subrange(a as int, b as int)));
    }
    r
}

/// The code of `c` with ASCII upper case folded to lower case.
pub open spec fn fold_char(c: char) -> u32 {
    if 'A' <= c && c <= 'Z' {
        (c as u32 + 32) as u32
    } else {
        c as u32
    }
}

/// `a` and `b` are equal up to ASCII case, as `eq_ignore_ascii_case` decides.
pub open spec fn same_ignoring_case(a: Seq<char>, b: Seq<char>) -> bool {
    a.len() == b.len() && forall|i: int| 0 <= i < a.len() ==> fold_char(#[trigger] a[i]) == fold_char(
        b[i],
    )
}

fn fold_code(c: char) -> (r: u32)
    ensures
        r == fold_char(c),
{
    if 'A' <= c && c <= 'Z' {
        c as u32 + 32
    } else {
        c as u32
    }
}

/// ASCII case-insensitive equality of two character sequences.
pub fn chars_eq_ignoring_case(a: &Vec<char>, b: &Vec<char>) -> (r: bool)
    ensures
        r == same_ignoring_case(a@, b@),
{
    if a.len() != b.len() {
        return false;
    }
    let mut i: usize = 0;
    while i < a.len()
        invariant
            a@.len() == b@.len(),
            i <= a@.len(),
            forall|j: int| 0 <= j < i ==> fold_char(#[trigger] a@[j]) == fold_char(b@[j]),
        decreases a@.len() - i,
    {
        if fold_code(a[i]) != fold_code(b[i]) {
            return false;
        }
        i = i + 1;
    }
    true
}

/// ASCII case-insensitive equality of two strings.
pub fn eq_ignoring_case(a: &str, b: &str) -> (r: bool)
    ensures
        r == same_ignoring_case(a@, b@),
{
    let va = chars_of(a);
    let vb = chars_of(b);
    chars_eq_ignoring_case(&va, &vb)
}

/// `s` ends with `suffix`, up to ASCII case.
pub open spec fn ends_with_ignoring_case(s: Seq<char>, suffix: Seq<char>) -> bool {
    s.len() >= suffix.len() && same_ignoring_case(
        s.subrange(s.len() - suffix.len(), s.len() as int),
        suffix,
    )
}

/// Whether `s` ends with `suffix`, up to ASCII case.
pub fn has_suffix_ignoring_case(s: &str, suffix: &str) -> (r: bool)
    ensures
        r == ends_with_ignoring_case(s@, suffix@),
{
    let n = s.unicode_len();
    let k = suffix.unicode_len();
    if n < k {
        return false;
    }
    let tail = chars_of(s.substring_char(n - k, n));
    let vs = chars_of(suffix);
    chars_eq_ignoring_case(&tail, &vs)
}

} // verus!
