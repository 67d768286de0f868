//! The coordination registry: the family and off-designation files, how the
//! reconciler writes them and how the set of managed names is read back.
use vstd::prelude::*;
use crate::text::{
    is_white, lead_white, lemma_segments_nonempty, record_lines, records, records_of,
    segments, trail_white, trim, views,
};

verus! {

/// The text of a file that holds `names`, one per line, each line ended by a
/// line feed.
pub open spec fn lines_text(names: Seq<Seq<char>>) -> Seq<char>
    decreases names.len(),
{
    if names.len() == 0 {
        Seq::empty()
    } else {
        lines_text(names.drop_last()) + names.last() + seq!['\n']
    }
}

/// The records of a registry file that may be missing: none when it is.
pub open spec fn file_records(text: Option<Seq<char>>) -> Seq<Seq<char>> {
    match text {
        Some(t) => records(t),
        None => Seq::empty(),
    }
}

/// The managed set that a registry describes: the names of the family file
/// together with those of the off-designation file.
pub open spec fn registry_names(family: Option<Seq<char>>, off: Option<Seq<char>>) -> Set<
    Seq<char>,
> {
    (file_records(family) + file_records(off)).to_set()
}

/// The view of an optional borrowed text.
pub open spec fn opt_text(t: Option<&str>) -> Option<Seq<char>> {
    match t {
        Some(s) => Some(s@),
        None => None,
    }
}

/// The names of `prev` that are not in `desired`, in the order of `prev`.
pub open spec fn obsolete(prev: Seq<Seq<char>>, desired: Set<Seq<char>>) -> Seq<Seq<char>>
    decreases prev.len(),
{
    if prev.len() == 0 {
        Seq::empty()
    } else if desired.contains(prev.last()) {
        obsolete(prev.drop_last(), desired)
    } else {
        obsolete(prev.drop_last(), desired).push(prev.last())
    }
}

/// Whether `v` holds a string equal to `s`.
pub fn contains_name(v: &Vec<String>, s: &String) -> (r: bool)
    ensures
        r == views(v@).contains(s@),
{
    let mut i: usize = 0;
    while i < v.len()
        invariant
            i <= v@.len(),
            forall|j: int| 0 <= j < i ==> v@[j]@ != s@,
        decreases v@.len() - i,
    {
        if v[i] == *s {
            assert(views(v@)[i as int] == s@);
            return true;
        }
        i = i + 1;
    }
    assert forall|j: int| 0 <= j < views(v@).len() implies views(v@)[j] != s@ by {
        assert(views(v@)[j] == v@[j]@);
    }
    false
}

/// Adds `s` to `v` unless an equal string is already there.
pub fn insert_name(v: &mut Vec<String>, s: String)
    requires
        views(old(v)@).no_duplicates(),
    ensures
        views(final(v)@).no_duplicates(),
        views(final(v)@).to_set() == views(old(v)@).to_set().insert(s@),
{
    if !contains_name(v, &s) {
        let ghost old_views = views(v@);
        let ghost sv = s@;
        v.push(s);
        assert(views(v@) =~= old_views.push(sv));
        proof {
            assert(views(v@).to_set() =~= old_views.to_set().insert(sv)) by {
                assert forall|x: Seq<char>| views(v@).contains(x) <==> old_views.contains(x) || x
                    == sv by {
                    if views(v@).contains(x) {
                        let j = choose|j: int| 0 <= j < views(v@).len() && views(v@)[j] == x;
                        if j < old_views.len() {
                            assert(old_views[j] == x);
                        }
                    }
                    if old_views.contains(x) {
                        let j = choose|j: int| 0 <= j < old_views.len() && old_views[j] == x;
                        assert(views(v@)[j] == x);
                    }
                    assert(views(v@)[old_views.len() as int] == sv);
                }
            }
        }
    } else {
        proof {
            assert(views(v@).to_set() =~= views(v@).to_set().insert(s@));
        }
    }
}

/// Adds each string of `items` to `v`, keeping `v` free of duplicates.
pub fn insert_names(v: &mut Vec<String>, items: Vec<String>)
    requires
        views(old(v)@).no_duplicates(),
    ensures
        views(final(v)@).no_duplicates(),
        views(final(v)@).to_set() == views(old(v)@).to_set() + views(items@).to_set(),
{
    let ghost start = views(v@).to_set();
    let ghost all = views(items@);
    let mut i: usize = 0;
    proof {
        assert(all.subrange(0, 0).to_set() =~= Set::empty());
        assert(start =~= start + Set::empty());
    }
    while i < items.len()
        invariant
            i <= items@.len(),
            all == views(items@),
            views(v@).no_duplicates(),
            views(v@).to_set() == start + all.subrange(0, i as int).to_set(),
        decreases items@.len() - i,
    {
        insert_name(v, items[i].clone());
        proof {
            assert(all.subrange(0, i + 1) == all.subrange(0, i as int).push(all[i as int]));
            all.subrange(0, i as int).lemma_push_to_set_commute(all[i as int]);
            assert(views(v@).to_set() =~= start + all.subrange(0, i + 1).to_set());
        }
        i = i + 1;
    }
    assert(all.subrange(0, all.len() as int) == all);
}

/// The set of instance names that a previous reconciliation left in charge:
/// the records of the family file and of the off-designation file, each
/// once. A missing file counts as empty.
pub fn read_prev_managed(family: Option<&str>, off: Option<&str>) -> (r: Vec<String>)
    ensures
        views(r@).no_duplicates(),
        views(r@).to_set() == registry_names(opt_text(family), opt_text(off)),
{
    let mut r: Vec<String> = Vec::new();
    proof {
        assert(views(r@) =~= Seq::empty());
    }
    let ghost fam_recs = file_records(opt_text(family));
    let ghost off_recs = file_records(opt_text(off));
    match family {
        Some(text) => insert_names(&mut r, record_lines(text)),
        None => {},
    }
    assert(views(r@).to_set() =~= fam_recs.to_set());
    match off {
        Some(text) => insert_names(&mut r, record_lines(text)),
        None => {},
    }
    proof {
        vstd::seq_lib::seq_to_set_distributes_over_add(fam_recs, off_recs);
        assert(views(r@).to_set() =~= fam_recs.to_set() + off_recs.to_set());
    }
    r
}

/// The names of `prev` that `desired` no longer holds, in the order of
/// `prev`: the artifacts that are to be removed.
pub fn remove_obsolete(prev: &Vec<String>, desired: &Vec<String>) -> (r: Vec<String>)
    ensures
        views(r@) == obsolete(views(prev@), views(desired@).to_set()),
        views(r@).to_set() == views(prev@).to_set().difference(views(desired@).to_set()),
{
    let ghost d = views(desired@).to_set();
    let mut r: Vec<String> = Vec::new();
    let mut i: usize = 0;
    proof {
        assert(views(r@) =~= Seq::empty());
        assert(views(prev@).subrange(0, 0) =~= Seq::empty());
    }
    while i < prev.len()
        invariant
            i <= prev@.len(),
            d == views(desired@).to_set(),
            views(r@) == obsolete(views(prev@).subrange(0, i as int), d),
        decreases prev@.len() - i,
    {
        let ghost before = views(prev@).subrange(0, i as int);
        let ghost after = views(prev@).subrange(0, i + 1);
        assert(after.drop_last() == before);
        assert(after.last() == prev@[i as int]@);
        if !contains_name(desired, &prev[i]) {
            let ghost r0 = views(r@);
            r.push(prev[i].clone());
            assert(views(r@) =~= r0.push(prev@[i as int]@));
        }
        i = i + 1;
    }
    assert(views(prev@).subrange(0, prev@.len() as int) == views(prev@));
    proof {
        lemma_obsolete_set(views(prev@), d);
    }
    r
}

/// The names that `obsolete` keeps are those of `prev` outside `desired`.
pub proof fn lemma_obsolete_set(prev: Seq<Seq<char>>, desired: Set<Seq<char>>)
    ensures
        obsolete(prev, desired).to_set() == prev.to_set().difference(desired),
    decreases prev.len(),
{
    if prev.len() == 0 {
        assert(prev.to_set() =~= Set::empty());
        assert(obsolete(prev, desired).to_set() =~= Set::empty());
    } else {
        let p = prev.drop_last();
        lemma_obsolete_set(p, desired);
        assert(prev == p.push(prev.last()));
        p.lemma_push_to_set_commute(prev.last());
        if !desired.contains(prev.last()) {
            obsolete(p, desired).lemma_push_to_set_commute(prev.last());
        }
        assert(obsolete(prev, desired).to_set() =~= prev.to_set().difference(desired));
    }
}

/// A name that a registry file reads back unchanged: not blank, not a
/// comment, no white space at either end and no line feed.
pub open spec fn is_plain_record(n: Seq<char>) -> bool {
    &&& n.len() > 0
    &&& n[0] != '#'
    &&& !is_white(n[0])
    &&& !is_white(n.last())
    &&& forall|j: int| 0 <= j < n.len() ==> #[trigger] n[j] != '\n'
}

proof fn lemma_trim_plain(n: Seq<char>)
    requires
        is_plain_record(n),
    ensures
        trim(n) == n,
{
    assert(lead_white(n) == 0);
    assert(n.subrange(0, n.len() as int) == n);
    assert(trail_white(n) == 0);
}

proof fn lemma_trim_empty()
    ensures
        trim(Seq::<char>::empty()) == Seq::<char>::empty(),
{
    assert(lead_white(Seq::<char>::empty()) == 0);
    assert(trail_white(Seq::<char>::empty()) == 0);
}

proof fn lemma_segments_append_word(a: Seq<char>, w: Seq<char>)
    requires
        forall|j: int| 0 <= j < w.len() ==> #[trigger] w[j] != '\n',
    ensures
        segments(a + w) == segments(a).update(
            segments(a).len() - 1,
            segments(a).last() + w,
        ),
    decreases w.len(),
{
    lemma_segments_nonempty(a);
    let sa = segments(a);
    if w.len() == 0 {
        assert(a + w == a);
        assert(sa.last() + w == sa.last());
        assert(sa.update(sa.len() - 1, sa.last()) =~= sa);
    } else {
        let w0 = w.drop_last();
        lemma_segments_append_word(a, w0);
        assert((a + w).drop_last() == a + w0);
        assert((a + w).last() == w.last());
        assert(w.last() != '\n') by {
            assert(w[w.len() - 1] != '\n');
        }
        assert(sa.last() + w0 + seq![w.last()] == sa.last() + w);
        assert((sa.last() + w0).push(w.last()) == sa.last() + w0 + seq![w.last()]);
        assert(segments(a + w) =~= sa.update(sa.len() - 1, sa.last() + w));
    }
}

/// A file written as `lines_text(names)` reads back as `names`, when each
/// name is a plain record.
pub proof fn lemma_records_of_lines(names: Seq<Seq<char>>)
    requires
        forall|i: int| 0 <= i < names.len() ==> is_plain_record(#[trigger] names[i]),
    ensures
        segments(lines_text(names)).len() >= 1,
        segments(lines_text(names)).last() == Seq::<char>::empty(),
        records(lines_text(names)) == names,
    decreases names.len(),
{
    lemma_trim_empty();
    if names.len() == 0 {
        assert(lines_text(names) == Seq::<char>::empty());
        let s0 = segments(Seq::<char>::empty());
        assert(s0 == seq![Seq::<char>::empty()]);
        assert(s0.drop_last() =~= Seq::<Seq<char>>::empty());
        assert(records_of(s0) == records_of(s0.drop_last()));
        assert(records(lines_text(names)) =~= names);
    } else {
        let p = names.drop_last();
        let w = names.last();
        assert(is_plain_record(names[names.len() - 1]));
        assert forall|i: int| 0 <= i < p.len() implies is_plain_record(#[trigger] p[i]) by {
            assert(p[i] == names[i]);
        }
        lemma_records_of_lines(p);
        let a = lines_text(p);
        let sa = segments(a);
        lemma_segments_append_word(a, w);
        assert(sa.last() + w == w);
        let sw = segments(a + w);
        assert(sw == sa.update(sa.len() - 1, w));
        let text = lines_text(names);
        assert(text == a + w + seq!['\n']);
        assert(text.drop_last() == a + w);
        assert(text.last() == '\n');
        assert(segments(text) == sw.push(Seq::empty()));
        assert(segments(text).drop_last() == sw);
        lemma_trim_plain(w);
        assert(sw.drop_last() =~= sa.drop_last());
        assert(records_of(sw) == records_of(sa.drop_last()).push(w));
        assert(records_of(sa) == records_of(sa.drop_last()));
        assert(records_of(segments(text)) == records_of(sw));
        assert(p.push(w) == names);
    }
}

/// A line feed, as a string.
pub fn line_feed() -> (r: &'static str)
    ensures
        r@ == seq!['\n'],
{
    proof {
        reveal_strlit("\n");
    }
    "\n"
}

/// The text of a file that holds `names`, one per line.
pub fn lines_file(names: &Vec<String>) -> (r: String)
    ensures
        r@ == lines_text(views(names@)),
{
    let mut r = String::new();
    let mut i: usize = 0;
    proof {
        assert(views(names@).subrange(0, 0) =~= Seq::empty());
    }
    while i < names.len()
        invariant
            i <= names@.len(),
            r@ == lines_text(views(names@).subrange(0, i as int)),
        decreases names@.len() - i,
    {
        r.append(names[i].as_str());
        r.append(line_feed());
        proof {
            let s = views(names@).subrange(0, i + 1);
            assert(s.drop_last() =~= views(names@).subrange(0, i as int));
            assert(s.last() == names@[i as int]@);
        }
        i = i + 1;
    }
    assert(views(names@).subrange(0, names@.len() as int) == views(names@));
    r
}

} // verus!
