//! Splitting dotted topic names into segments, as `str::split('.')` does.

use vstd::prelude::*;

verus! {

/// The byte `.` that separates topic segments.
pub const DOT: u8 = 46u8;

/// Segments of `s` separated by `.`: an empty string has one empty segment,
/// and `n` dots give `n + 1` segments.
pub open spec fn split_dot(s: Seq<u8>) -> Seq<Seq<u8>>
    decreases s.len(),
{
    if s.len() == 0 {
        seq![Seq::<u8>::empty()]
    } else {
        let prev = split_dot(s.drop_last());
        if s.last() == DOT {
            prev.push(Seq::<u8>::empty())
        } else {
            prev.update(prev.len() - 1, prev.last().push(s.last()))
        }
    }
}

/// The segments joined back with `.` between them.
pub open spec fn join_dot(segs: Seq<Seq<u8>>) -> Seq<u8>
    decreases segs.len(),
{
    if segs.len() == 0 {
        Seq::<u8>::empty()
    } else if segs.len() == 1 {
        segs[0]
    } else {
        join_dot(segs.drop_last()) + seq![DOT] + segs.last()
    }
}

/// The byte views of a sequence of byte vectors.
pub open spec fn views(v: Seq<Vec<u8>>) -> Seq<Seq<u8>> {
    v.map_values(|x: Vec<u8>| x@)
}

/// Splitting always gives at least one segment, and joining the segments
/// gives the string back.
pub proof fn lemma_join_split(s: Seq<u8>)
    ensures
        split_dot(s).len() >= 1,
        join_dot(split_dot(s)) == s,
    decreases s.len(),
{
    if s.len() > 0 {
        let prev = split_dot(s.drop_last());
        lemma_join_split(s.drop_last());
        if s.last() == DOT {
            let cur = prev.push(Seq::<u8>::empty());
            assert(cur.drop_last() =~= prev);
            assert(join_dot(cur) =~= s);
        } else {
            let cur = prev.update(prev.len() - 1, prev.last().push(s.last()));
            if prev.len() == 1 {
                assert(join_dot(cur) =~= s);
            } else {
                assert(cur.drop_last() =~= prev.drop_last());
                assert(join_dot(prev) == join_dot(prev.drop_last()) + seq![DOT] + prev.last());
                assert(cur.len() == prev.len());
                assert(cur.last() == prev.last().push(s.last()));
                assert(join_dot(cur) == join_dot(cur.drop_last()) + seq![DOT] + cur.last());
                assert(s =~= s.drop_last().push(s.last()));
                assert(join_dot(cur) =~= s);
            }
        }
    }
}

/// Two strings with the same segments are equal.
pub proof fn lemma_split_injective(a: Seq<u8>, b: Seq<u8>)
    requires
        split_dot(a) == split_dot(b),
    ensures
        a == b,
{
    lemma_join_split(a);
    lemma_join_split(b);
}

/// Splits `s` at every `.`.
pub fn split_segments(s: &[u8]) -> (r: Vec<Vec<u8>>)
    ensures
        views(r@) == split_dot(s@),
{
    let mut segs: Vec<Vec<u8>> = Vec::new();
    segs.push(Vec::new());
    let mut i: usize = 0;
    assert(s@.take(0) =~= Seq::<u8>::empty());
    assert(views(segs@) =~= split_dot(s@.take(0)));
    while i < s.len()
        invariant
            i <= s@.len(),
            segs@.len() >= 1,
            views(segs@) == split_dot(s@.take(i as int)),
        decreases s@.len() - i,
    {
        let c = s[i];
        let ghost prev = views(segs@);
        assert(s@.take(i + 1).drop_last() =~= s@.take(i as int));
        if c == DOT {
            segs.push(Vec::new());
            assert(views(segs@) =~= prev.push(Seq::<u8>::empty()));
        } else {
            let last = segs.len() - 1;
            segs[last].push(c);
            assert(views(segs@) =~= prev.update(prev.len() - 1, prev.last().push(c)));
        }
        i = i + 1;
    }
    assert(s@.take(s@.len() as int) =~= s@);
    segs
}

/// Whether two byte strings are equal.
pub fn bytes_eq(a: &[u8], b: &[u8]) -> (r: bool)
    ensures
        r == (a@ == b@),
{
    if a.len() != b.len() {
        return false;
    }
    let mut i: usize = 0;
    while i < a.len()
        invariant
            i <= a@.len(),
            a@.len() == b@.len(),
            forall|j: int| 0 <= j < i ==> a@[j] == b@[j],
        decreases a@.len() - i,
    {
        if a[i] != b[i] {
            return false;
        }
        i = i + 1;
    }
    assert(a@ =~= b@);
    true
}

/// A copy of the bytes of `s`.
pub fn to_vec(s: &[u8]) -> (r: Vec<u8>)
    ensures
        r@ == s@,
{
    let mut r: Vec<u8> = Vec::new();
    let mut i: usize = 0;
    while i < s.len()
        invariant
            i <= s@.len(),
            r@ == s@.take(i as int),
        decreases s@.len() - i,
    {
        r.push(s[i]);
        i = i + 1;
        assert(s@.take(i as int) =~= s@.take((i - 1) as int).push(s@[i - 1]));
    }
    assert(s@.take(s@.len() as int) =~= s@);
    r
}

} // verus!
