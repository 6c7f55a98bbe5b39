//! Facts about sequences.

use vstd::prelude::*;

verus! {

/// What follows `at`, written as three parts, fixes where each part stands.
pub proof fn lemma_skip_parts<T>(data: Seq<T>, at: int, p: Seq<T>, u: Seq<T>, r: Seq<T>)
    requires
        0 <= at <= data.len(),
        data.skip(at) == p + u + r,
    ensures
        at + p.len() + u.len() + r.len() == data.len(),
        data.subrange(at, at + p.len()) == p,
        data.subrange(at + p.len(), at + p.len() + u.len()) == u,
        data.skip(at + p.len() + u.len()) == r,
{
    let s = p + u + r;
    assert(data.skip(at).len() == s.len());
    assert(data.subrange(at, at + p.len()) =~= s.subrange(0, p.len() as int));
    assert(s.subrange(0, p.len() as int) =~= p);
    assert(data.subrange(at + p.len(), at + p.len() + u.len()) =~= s.subrange(
        p.len() as int,
        p.len() + u.len() as int,
    ));
    assert(s.subrange(p.len() as int, p.len() + u.len() as int) =~= u);
    assert(data.skip(at + p.len() + u.len()) =~= s.skip(p.len() + u.len() as int));
    assert(s.skip(p.len() + u.len() as int) =~= r);
}

} // verus!
