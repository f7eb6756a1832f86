use vstd::prelude::*;

verus! {

/// Taking the first element off what remains of a sequence after `k` elements: the element
/// is the `k`-th, what remains is the rest after `k + 1`, and the first `k + 1` elements are
/// the first `k` and this one.
pub proof fn lemma_take_front<T>(orig: Seq<T>, before: Seq<T>, after: Seq<T>, k: int)
    requires
        0 <= k < orig.len(),
        before == orig.skip(k),
        after == before.remove(0),
    ensures
        before[0] == orig[k],
        after == orig.skip(k + 1),
        orig.take(k + 1) == orig.take(k).push(orig[k]),
        orig.take(k + 1).drop_last() == orig.take(k),
        orig.take(k + 1).last() == orig[k],
{
    assert(after =~= orig.skip(k + 1));
    assert(orig.take(k + 1) =~= orig.take(k).push(orig[k]));
    assert(orig.take(k + 1).drop_last() =~= orig.take(k));
}

/// The whole sequence is what remains after none of it is taken, and all of it.
pub proof fn lemma_take_ends<T>(orig: Seq<T>)
    ensures
        orig.skip(0) == orig,
        orig.take(0) == Seq::<T>::empty(),
        orig.take(orig.len() as int) == orig,
{
    assert(orig.skip(0) =~= orig);
    assert(orig.take(0) =~= Seq::<T>::empty());
    assert(orig.take(orig.len() as int) =~= orig);
}

} // verus!
