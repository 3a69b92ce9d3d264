//! Sets of names kept as vectors without duplicates, in order of first
//! appearance.
use vstd::prelude::*;

verus! {

/// The view of each string in a sequence of strings.
pub open spec fn views(v: Seq<String>) -> Seq<Seq<char>> {
    v.map_values(|s: String| s@)
}

/// `s` with every repeated element after its first occurrence removed.
pub open spec fn dedup(s: Seq<Seq<char>>) -> Seq<Seq<char>>
    decreases s.len(),
{
    if s.len() == 0 {
        seq![]
    } else {
        let p = dedup(s.drop_last());
        if p.contains(s.last()) {
            p
        } else {
            p.push(s.last())
        }
    }
}

/// Removing repetitions keeps the same elements and leaves none twice.
pub proof fn lemma_dedup(s: Seq<Seq<char>>)
    ensures
        dedup(s).no_duplicates(),
        dedup(s).to_set() == s.to_set(),
    decreases s.len(),
{
    if s.len() > 0 {
        lemma_dedup(s.drop_last());
        let p = dedup(s.drop_last());
        assert(s =~= s.drop_last().push(s.last()));
        s.drop_last().lemma_push_to_set_commute(s.last());
        p.lemma_push_to_set_commute(s.last());
        if !p.contains(s.last()) {
            assert forall|i: int, j: int|
                0 <= i < j < p.push(s.last()).len() implies p.push(s.last())[i] != p.push(
                s.last(),
            )[j] by {
                if j == p.len() {
                    assert(p.contains(p[i]));
                }
            }
        } else {
            assert(p.to_set().contains(s.last()));
            assert(p.to_set() =~= p.to_set().insert(s.last()));
        }
    } else {
        assert(s.to_set() =~= Set::empty());
        assert(dedup(s).to_set() =~= Set::empty());
    }
}

/// Whether `v` holds a string equal to `s`.
pub fn contains_name(v: &Vec<String>, s: &String) -> (r: bool)
    ensures
        r == views(v@).contains(s@),
{
    let mut i: usize = 0;
    while i < v.len()
        invariant
            i <= v@.len(),
            forall|k: int| 0 <= k < i ==> v@[k]@ != s@,
        decreases v@.len() - i,
    {
        if v[i] == *s {
            assert(views(v@)[i as int] == s@);
            return true;
        }
        i = i + 1;
    }
    assert forall|k: int| 0 <= k < views(v@).len() implies views(v@)[k] != s@ by {
        assert(views(v@)[k] == v@[k]@);
    }
    false
}

/// Appends `s` to `v` unless `v` already holds it.
pub fn insert_name(v: &mut Vec<String>, s: String)
    ensures
        views(final(v)@) == if views(old(v)@).contains(s@) {
            views(old(v)@)
        } else {
            views(old(v)@).push(s@)
        },
{
    if !contains_name(v, &s) {
        let ghost before = views(v@);
        v.push(s);
        assert(views(v@) =~= before.push(s@));
    }
}

/// The names of `s` with repetitions removed, in order of first appearance.
pub fn dedup_names(s: &Vec<String>) -> (r: Vec<String>)
    ensures
        views(r@) == dedup(views(s@)),
{
    let mut out: Vec<String> = Vec::new();
    let mut i: usize = 0;
    assert(views(s@).subrange(0, 0) =~= Seq::<Seq<char>>::empty());
    while i < s.len()
        invariant
            i <= s@.len(),
            views(out@) == dedup(views(s@).subrange(0, i as int)),
        decreases s@.len() - i,
    {
        let ghost pre = views(s@).subrange(0, i + 1);
        assert(pre.drop_last() =~= views(s@).subrange(0, i as int));
        assert(pre.last() == s@[i as int]@);
        insert_name(&mut out, s[i].clone());
        i = i + 1;
    }
    assert(views(s@).subrange(0, s@.len() as int) =~= views(s@));
    out
}

/// Appends a copy of each string of `more` to `v`, in order.
pub fn append_names(v: &mut Vec<String>, more: &Vec<String>)
    ensures
        views(final(v)@) == views(old(v)@) + views(more@),
{
    let ghost start = views(v@);
    let mut i: usize = 0;
    while i < more.len()
        invariant
            i <= more@.len(),
            views(v@) == start + views(more@).subrange(0, i as int),
        decreases more@.len() - i,
    {
        let ghost before = views(v@);
        v.push(more[i].clone());
        assert(views(v@) =~= before.push(more@[i as int]@));
        assert(views(more@).subrange(0, i + 1) =~= views(more@).subrange(0, i as int).push(more@[i as int]@));
        i = i + 1;
    }
    assert(views(more@).subrange(0, more@.len() as int) =~= views(more@));
}

/// A copy of each string of `v`, in order.
pub fn copy_names(v: &Vec<String>) -> (r: Vec<String>)
    ensures
        views(r@) == views(v@),
{
    let mut out: Vec<String> = Vec::new();
    let mut i: usize = 0;
    while i < v.len()
        invariant
            i <= v@.len(),
            out@.len() == i,
            views(out@) == views(v@).subrange(0, i as int),
        decreases v@.len() - i,
    {
        let ghost before = views(out@);
        out.push(v[i].clone());
        assert(out@[i as int] == v@[i as int]);
        assert(views(out@) =~= before.push(v@[i as int]@));
        assert(views(v@).subrange(0, i + 1) =~= views(v@).subrange(0, i as int).push(v@[i as int]@));
        i = i + 1;
    }
    assert(views(v@).subrange(0, v@.len() as int) =~= views(v@));
    out
}

} // verus!
