//! Copying parts of vectors.
use vstd::prelude::*;

verus! {

/// The elements of `v` from `from` up to `to`.
pub fn subvec<T: Copy>(v: &Vec<T>, from: usize, to: usize) -> (r: Vec<T>)
    requires
        from <= to <= v@.len(),
    ensures
        r@ == v@.subrange(from as int, to as int),
{
    let mut r: Vec<T> = Vec::new();
    let mut i: usize = from;
    while i < to
        invariant
            from <= i <= to <= v@.len(),
            r@ == v@.subrange(from as int, i as int),
        decreases to - i,
    {
        r.push(v[i]);
        i = i + 1;
    }
    r
}

/// A copy of `v`.
pub fn copy_of<T: Copy>(v: &Vec<T>) -> (r: Vec<T>)
    ensures
        r@ == v@,
{
    let r = subvec(v, 0, v.len());
    assert(r@ =~= v@);
    r
}

/// Appends the elements of `v` from `from` on to `dst`.
pub fn append_from<T: Copy>(dst: &mut Vec<T>, v: &Vec<T>, from: usize)
    requires
        from <= v@.len(),
    ensures
        final(dst)@ == old(dst)@ + v@.skip(from as int),
{
    let ghost start = dst@;
    let mut i: usize = from;
    while i < v.len()
        invariant
            from <= i <= v@.len(),
            dst@ == start + v@.subrange(from as int, i as int),
        decreases v@.len() - i,
    {
        dst.push(v[i]);
        i = i + 1;
        assert(dst@ =~= start + v@.subrange(from as int, i as int));
    }
    assert(v@.subrange(from as int, v@.len() as int) =~= v@.skip(from as int));
}

/// Whether `x` is an element of `v`.
pub fn holds(v: &Vec<usize>, x: usize) -> (r: bool)
    ensures
        r == v@.contains(x),
{
    let mut i: usize = 0;
    while i < v.len()
        invariant
            i <= v@.len(),
            forall|k: int| 0 <= k < i ==> v@[k] != x,
        decreases v@.len() - i,
    {
        if v[i] == x {
            return true;
        }
        i = i + 1;
    }
    false
}

/// `s` without the occurrences of `x`, the others in their order.
pub open spec fn without<T>(s: Seq<T>, x: T) -> Seq<T>
    decreases s.len(),
{
    if s.len() == 0 {
        s
    } else if s.last() == x {
        without(s.drop_last(), x)
    } else {
        without(s.drop_last(), x).push(s.last())
    }
}

/// What stays when `x` is taken out: the elements other than `x`.
pub proof fn lemma_without<T>(s: Seq<T>, x: T)
    ensures
        forall|y: T| without(s, x).contains(y) <==> (y != x && s.contains(y)),
        without(s, x).len() <= s.len(),
    decreases s.len(),
{
    if s.len() > 0 {
        let rest = s.drop_last();
        lemma_without(rest, x);
        let r = without(s, x);
        assert forall|y: T| r.contains(y) <==> (y != x && s.contains(y)) by {
            if s.contains(y) {
                let k = choose|k: int| 0 <= k < s.len() && s[k] == y;
                if k < rest.len() {
                    assert(rest[k] == y);
                }
            }
            if rest.contains(y) {
                let k = choose|k: int| 0 <= k < rest.len() && rest[k] == y;
                assert(s[k] == y);
            }
            if s.last() != x {
                let w = without(rest, x);
                if w.contains(y) {
                    let k = choose|k: int| 0 <= k < w.len() && w[k] == y;
                    assert(r[k] == y);
                }
                assert(r[w.len() as int] == s.last());
                if r.contains(y) && y != s.last() {
                    let k = choose|k: int| 0 <= k < r.len() && r[k] == y;
                    assert(w[k] == y);
                }
            }
            assert(s[s.len() - 1] == s.last());
        }
    }
}

/// `v` without the occurrences of `x`.
pub fn vec_without(v: &Vec<usize>, x: usize) -> (r: Vec<usize>)
    ensures
        r@ == without(v@, x),
{
    let mut r: Vec<usize> = Vec::new();
    let mut i: usize = 0;
    while i < v.len()
        invariant
            i <= v@.len(),
            r@ == without(v@.take(i as int), x),
        decreases v@.len() - i,
    {
        proof {
            assert(v@.take(i + 1).drop_last() =~= v@.take(i as int));
        }
        if v[i] != x {
            r.push(v[i]);
        }
        i = i + 1;
    }
    assert(v@.take(v@.len() as int) =~= v@);
    r
}

} // verus!
