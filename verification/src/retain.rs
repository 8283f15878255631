//! Order-preserving in-place filtering of vectors of plain values.
use vstd::prelude::*;

verus! {

/// Keep the elements `keep` accepts, in order.
pub fn retain_copy<T: Copy, F: Fn(T) -> bool>(v: &mut Vec<T>, keep: F, Ghost(p): Ghost<spec_fn(T) -> bool>)
    requires
        forall|x: T| keep.requires((x,)),
        forall|x: T, r: bool| keep.ensures((x,), r) ==> r == p(x),
    ensures
        final(v)@ == old(v)@.filter(p),
{
    let ghost s = v@;
    let mut out: Vec<T> = Vec::new();
    let mut i: usize = 0;
    while i < v.len()
        invariant
            v@ == s,
            0 <= i <= s.len(),
            forall|x: T| keep.requires((x,)),
            forall|x: T, r: bool| keep.ensures((x,), r) ==> r == p(x),
            out@ == s.subrange(0, i as int).filter(p),
        decreases s.len() - i,
    {
        let x = v[i];
        proof {
            assert(s.subrange(0, i + 1) =~= s.subrange(0, i as int).push(x));
            s.subrange(0, i as int).lemma_filter_push(x, p);
        }
        if keep(x) {
            out.push(x);
        }
        i = i + 1;
    }
    proof {
        assert(s.subrange(0, s.len() as int) =~= s);
    }
    *v = out;
}

/// Position of the first element `hit` accepts.
pub fn find_copy<T: Copy, F: Fn(T) -> bool>(v: &Vec<T>, hit: F, Ghost(p): Ghost<spec_fn(T) -> bool>) -> (r: Option<usize>)
    requires
        forall|x: T| hit.requires((x,)),
        forall|x: T, r: bool| hit.ensures((x,), r) ==> r == p(x),
    ensures
        r matches Some(i) ==> i < v@.len() && p(v@[i as int]) && forall|j: int| 0 <= j < i ==> !p(v@[j]),
        r is None ==> forall|j: int| 0 <= j < v@.len() ==> !p(v@[j]),
{
    let mut i: usize = 0;
    while i < v.len()
        invariant
            0 <= i <= v@.len(),
            forall|x: T| hit.requires((x,)),
            forall|x: T, r: bool| hit.ensures((x,), r) ==> r == p(x),
            forall|j: int| 0 <= j < i ==> !p(v@[j]),
        decreases v@.len() - i,
    {
        if hit(v[i]) {
            return Some(i);
        }
        i = i + 1;
    }
    None
}

/// The elements `keep` accepts, in order.
pub fn filter_copy<T: Copy, F: Fn(T) -> bool>(v: &Vec<T>, keep: F, Ghost(p): Ghost<spec_fn(T) -> bool>) -> (out: Vec<T>)
    requires
        forall|x: T| keep.requires((x,)),
        forall|x: T, r: bool| keep.ensures((x,), r) ==> r == p(x),
    ensures
        out@ == v@.filter(p),
{
    let ghost s = v@;
    let mut out: Vec<T> = Vec::new();
    let mut i: usize = 0;
    while i < v.len()
        invariant
            v@ == s,
            0 <= i <= s.len(),
            forall|x: T| keep.requires((x,)),
            forall|x: T, r: bool| keep.ensures((x,), r) ==> r == p(x),
            out@ == s.subrange(0, i as int).filter(p),
        decreases s.len() - i,
    {
        let x = v[i];
        proof {
            assert(s.subrange(0, i + 1) =~= s.subrange(0, i as int).push(x));
            s.subrange(0, i as int).lemma_filter_push(x, p);
        }
        if keep(x) {
            out.push(x);
        }
        i = i + 1;
    }
    proof {
        assert(s.subrange(0, s.len() as int) =~= s);
    }
    out
}

} // verus!
