//! Moving values in and out of vectors, stated over their deep views.
use vstd::prelude::*;

verus! {

/// Removes and returns the first element.
pub fn take_first<T: DeepView>(v: &mut Vec<T>) -> (r: T)
    requires
        old(v)@.len() > 0,
    ensures
        r.deep_view() == old(v).deep_view()[0],
        final(v).deep_view() == old(v).deep_view().drop_first(),
        final(v)@.len() == old(v)@.len() - 1,
{
    let r = v.remove(0);
    assert(v.deep_view() =~= old(v).deep_view().drop_first());
    r
}

/// Appends an element.
pub fn push_back<T: DeepView>(v: &mut Vec<T>, x: T)
    ensures
        final(v).deep_view() == old(v).deep_view().push(x.deep_view()),
        final(v)@.len() == old(v)@.len() + 1,
{
    let ghost xv = x.deep_view();
    v.push(x);
    assert(v.deep_view() =~= old(v).deep_view().push(xv));
}

/// Inserts an element at index `i`.
pub fn insert_at<T: DeepView>(v: &mut Vec<T>, i: usize, x: T)
    requires
        i <= old(v)@.len(),
    ensures
        final(v).deep_view() == old(v).deep_view().insert(i as int, x.deep_view()),
        final(v)@.len() == old(v)@.len() + 1,
{
    let ghost xv = x.deep_view();
    v.insert(i, x);
    assert(v.deep_view() =~= old(v).deep_view().insert(i as int, xv));
}

/// Moves all elements of `other` to the end of `v`.
pub fn append_all<T: DeepView>(v: &mut Vec<T>, other: &mut Vec<T>)
    ensures
        final(v).deep_view() == old(v).deep_view() + old(other).deep_view(),
        final(other)@.len() == 0,
{
    v.append(other);
    assert(v.deep_view() =~= old(v).deep_view() + old(other).deep_view());
}

pub proof fn lemma_skip_drop_first<T>(s: Seq<T>, i: int)
    requires
        0 <= i < s.len(),
    ensures
        s.skip(i).drop_first() == s.skip(i + 1),
        s.skip(i)[0] == s[i],
{
    assert(s.skip(i).drop_first() =~= s.skip(i + 1));
}

pub proof fn lemma_take_push<T>(s: Seq<T>, i: int)
    requires
        0 <= i < s.len(),
    ensures
        s.take(i + 1).drop_last() == s.take(i),
        s.take(i + 1).last() == s[i],
        s.take(i).push(s[i]) == s.take(i + 1),
{
    assert(s.take(i + 1).drop_last() =~= s.take(i));
    assert(s.take(i).push(s[i]) =~= s.take(i + 1));
}

} // verus!
