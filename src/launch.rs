//! The command line handed to the companion process: each argument quoted
//! where it must be, then all joined with single spaces.
use vstd::prelude::*;
use crate::text::{chars_of, is_white, is_white_char, views};

verus! {

/// The argument must be wrapped in double quotes: it holds white space or a
/// double quote.
pub open spec fn needs_quotes(a: Seq<char>) -> bool {
    exists|i: int| 0 <= i < a.len() && (is_white(#[trigger] a[i]) || a[i] == '"')
}

/// `a` with a backslash put before each double quote.
pub open spec fn escaped(a: Seq<char>) -> Seq<char>
    decreases a.len(),
{
    if a.len() == 0 {
        Seq::empty()
    } else if a.last() == '"' {
        escaped(a.drop_last()) + seq!['\\', '"']
    } else {
        escaped(a.drop_last()).push(a.last())
    }
}

/// The argument as it stands on the command line.
pub open spec fn quoted(a: Seq<char>) -> Seq<char> {
    if needs_quotes(a) {
        seq!['"'] + escaped(a) + seq!['"']
    } else {
        a
    }
}

/// The command line of `args`: each one quoted, separated by single spaces.
pub open spec fn joined(args: Seq<Seq<char>>) -> Seq<char>
    decreases args.len(),
{
    if args.len() == 0 {
        Seq::empty()
    } else if args.len() == 1 {
        quoted(args[0])
    } else {
        joined(args.drop_last()) + seq![' '] + quoted(args.last())
    }
}

/// The argument `arg` as it stands on the command line: wrapped in double
/// quotes, inner double quotes escaped with a backslash, when it holds white
/// space or a double quote; unchanged otherwise.
pub fn quote_arg(arg: &str) -> (r: String)
    ensures
        r@ == quoted(arg@),
{
    let v = chars_of(arg);
    let mut special = false;
    let mut i: usize = 0;
    while i < v.len()
        invariant
            i <= v@.len(),
            v@ == arg@,
            special <==> exists|j: int| 0 <= j < i && (is_white(#[trigger] v@[j]) || v@[j] == '"'),
        decreases v@.len() - i,
    {
        if is_white_char(v[i]) || v[i] == '"' {
            special = true;
        }
        i = i + 1;
    }
    if !special {
        return String::from_str(arg);
    }
    proof {
        reveal_strlit("\"");
    }
    let mut r = String::from_str("\"");
    let mut k: usize = 0;
    assert(v@.subrange(0, 0) =~= Seq::<char>::empty());
    while k < v.len()
        invariant
            k <= v@.len(),
            v@ == arg@,
            r@ == seq!['"'] + escaped(v@.subrange(0, k as int)),
        decreases v@.len() - k,
    {
        let ghost pre = v@.subrange(0, k as int);
        let ghost post = v@.subrange(0, k + 1);
        assert(post.drop_last() == pre);
        assert(post.last() == v@[k as int]);
        let ghost r0 = r@;
        if v[k] == '"' {
            let esc = "\\\"";
            proof {
                reveal_strlit("\\\"");
            }
            assert(esc@ =~= seq!['\\', '"']);
            r.append(esc);
            assert(escaped(post) == escaped(pre) + seq!['\\', '"']);
        } else {
            r.append(arg.substring_char(k, k + 1));
            assert(arg@.subrange(k as int, k + 1) =~= seq![v@[k as int]]);
            assert(escaped(post) == escaped(pre).push(v@[k as int]));
        }
        assert(r@ =~= seq!['"'] + escaped(post));
        k = k + 1;
    }
    assert(v@.subrange(0, v@.len() as int) == v@);
    r.append("\"");
    r
}

/// The command line of `args`: each argument quoted by `quote_arg`, joined
/// with single spaces; empty when there are no arguments.
pub fn build_params(args: &Vec<String>) -> (r: String)
    ensures
        r@ == joined(views(args@)),
{
    let mut r = String::new();
    let mut i: usize = 0;
    while i < args.len()
        invariant
            i <= args@.len(),
            r@ == joined(views(args@).subrange(0, i as int)),
        decreases args@.len() - i,
    {
        let ghost pre = views(args@).subrange(0, i as int);
        let ghost post = views(args@).subrange(0, i + 1);
        assert(post.drop_last() =~= pre);
        assert(post.last() == args@[i as int]@);
        let ghost r0 = r@;
        if i > 0 {
            let sp = " ";
            proof {
                reveal_strlit(" ");
            }
            assert(sp@ =~= seq![' ']);
            r.append(sp);
            let q = quote_arg(args[i].as_str());
            r.append(q.as_str());
            assert(joined(post) == joined(pre) + seq![' '] + quoted(args@[i as int]@));
            assert(r@ =~= joined(post));
        } else {
            assert(post.len() == 1 && post[0] == args@[0]@);
            assert(r@ =~= Seq::<char>::empty());
            let q = quote_arg(args[i].as_str());
            r.append(q.as_str());
            assert(r@ =~= joined(post));
        }
        i = i + 1;
    }
    assert(views(args@).subrange(0, args@.len() as int) =~= views(args@));
    r
}

} // verus!
