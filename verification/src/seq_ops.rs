use vstd::prelude::*;

verus! {

/// The least index at which `pred` holds, or the length of `s` where it holds nowhere.
pub open spec fn first_index<A>(s: Seq<A>, pred: spec_fn(A) -> bool) -> nat
    decreases s.len(),
{
    if s.len() == 0 {
        0
    } else if pred(s[0]) {
        0
    } else {
        1 + first_index(s.drop_first(), pred)
    }
}

/// `first_index` is the place where the elements before it fail `pred` and its own, if there is
/// one, meets it.
pub proof fn lemma_first_index<A>(s: Seq<A>, pred: spec_fn(A) -> bool, at: int)
    requires
        0 <= at <= s.len(),
        forall|k: int| 0 <= k < at ==> !pred(#[trigger] s[k]),
        at < s.len() ==> pred(s[at]),
    ensures
        first_index(s, pred) == at,
    decreases s.len(),
{
    if s.len() > 0 && at > 0 {
        let tail = s.drop_first();
        assert forall|k: int| 0 <= k < at - 1 implies !pred(#[trigger] tail[k]) by {
            assert(tail[k] == s[k + 1]);
        }
        assert(!pred(s[0]));
        lemma_first_index(tail, pred, at - 1);
    }
}

/// `pred` holds at a `first_index` that is below the length.
pub proof fn lemma_first_index_holds<A>(s: Seq<A>, pred: spec_fn(A) -> bool)
    requires
        first_index(s, pred) < s.len(),
    ensures
        pred(s[first_index(s, pred) as int]),
    decreases s.len(),
{
    if !pred(s[0]) {
        lemma_first_index_holds(s.drop_first(), pred);
    }
}

/// Where `pred` holds somewhere, `first_index` is no later.
pub proof fn lemma_first_index_found<A>(s: Seq<A>, pred: spec_fn(A) -> bool, at: int)
    requires
        0 <= at < s.len(),
        pred(s[at]),
    ensures
        first_index(s, pred) <= at,
        pred(s[first_index(s, pred) as int]),
    decreases s.len(),
{
    if !pred(s[0]) {
        assert(s.drop_first()[at - 1] == s[at]);
        lemma_first_index_found(s.drop_first(), pred, at - 1);
    }
}

/// `s` without the element at `i`, whose place the last element takes.
pub open spec fn swap_removed<A>(s: Seq<A>, i: int) -> Seq<A> {
    s.update(i, s.last()).drop_last()
}

/// `swap_removed` takes one element out and keeps the others.
pub proof fn lemma_swap_removed<A>(s: Seq<A>, i: int)
    requires
        0 <= i < s.len(),
    ensures
        s.to_multiset() == swap_removed(s, i).to_multiset().insert(s[i]),
{
    broadcast use vstd::seq_lib::group_to_multiset_ensures;

    let front = s.drop_last();
    assert(s =~= front.push(s.last()));
    if i == s.len() - 1 {
        assert(swap_removed(s, i) =~= front);
    } else {
        let moved = front.update(i, s.last());
        assert(swap_removed(s, i) =~= moved);
        assert(moved =~= front.remove(i).insert(i, s.last()));
        assert(moved.remove(i) =~= front.remove(i));
        assert(front.contains(front[i]));
        assert(moved.contains(moved[i]));
        assert(moved.to_multiset().remove(s.last()) =~= front.to_multiset().remove(s[i]));
        assert(moved.to_multiset() =~= front.to_multiset().remove(s[i]).insert(s.last()));
        assert(s.to_multiset() =~= moved.to_multiset().insert(s[i]));
    }
}

} // verus!
