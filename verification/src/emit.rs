//! Ordered concatenation of per-slot fragments, the backbone of every
//! emission phase: a phase's output is the fragments of the slots, in slot
//! order, concatenated.

use vstd::prelude::*;

verus! {

/// The fragments of the elements of `s`, in order, concatenated.
pub open spec fn concat_frags<A, B>(s: Seq<A>, f: spec_fn(A) -> Seq<B>) -> Seq<B>
    decreases s.len(),
{
    if s.len() == 0 {
        Seq::empty()
    } else {
        concat_frags(s.drop_last(), f) + f(s.last())
    }
}

/// Views of a vector of owned lines.
pub open spec fn line_views(v: Seq<String>) -> Seq<Seq<char>> {
    v.map_values(|s: String| s@)
}

/// The given lines, each terminated by a newline, concatenated.
pub open spec fn join_terminated(lines: Seq<Seq<char>>) -> Seq<char>
    decreases lines.len(),
{
    if lines.len() == 0 {
        Seq::empty()
    } else {
        join_terminated(lines.drop_last()) + lines.last() + "\n"@
    }
}

/// Extending the emitted prefix by one slot appends that slot's fragment.
pub proof fn lemma_concat_frags_take_step<A, B>(s: Seq<A>, f: spec_fn(A) -> Seq<B>, i: int)
    requires
        0 <= i < s.len(),
    ensures
        concat_frags(s.take(i + 1), f) == concat_frags(s.take(i), f) + f(s[i]),
{
    assert(s.take(i + 1).drop_last() =~= s.take(i));
    assert(s.take(i + 1).last() == s[i]);
}

/// The same, for newline-terminated joining.
pub proof fn lemma_join_terminated_take_step(lines: Seq<Seq<char>>, i: int)
    requires
        0 <= i < lines.len(),
    ensures
        join_terminated(lines.take(i + 1)) == join_terminated(lines.take(i)) + lines[i] + "\n"@,
{
    assert(lines.take(i + 1).drop_last() =~= lines.take(i));
    assert(lines.take(i + 1).last() == lines[i]);
}

/// Fragment emission distributes over concatenation of the slot list.
pub proof fn lemma_concat_frags_concat<A, B>(a: Seq<A>, b: Seq<A>, f: spec_fn(A) -> Seq<B>)
    ensures
        concat_frags(a + b, f) == concat_frags(a, f) + concat_frags(b, f),
    decreases b.len(),
{
    if b.len() == 0 {
        assert(a + b =~= a);
        assert(concat_frags(a, f) + concat_frags(b, f) =~= concat_frags(a, f));
    } else {
        assert((a + b).drop_last() =~= a + b.drop_last());
        assert((a + b).last() == b.last());
        lemma_concat_frags_concat(a, b.drop_last(), f);
        assert(concat_frags(a, f) + concat_frags(b, f) =~= (concat_frags(a, f) + concat_frags(
            b.drop_last(),
            f,
        )) + f(b.last()));
    }
}

/// A single slot emits exactly its own fragment.
pub proof fn lemma_concat_frags_singleton<A, B>(x: A, f: spec_fn(A) -> Seq<B>)
    ensures
        concat_frags(seq![x], f) == f(x),
{
    assert(seq![x].drop_last() =~= Seq::<A>::empty());
    assert(seq![x].last() == x);
    assert(concat_frags(Seq::<A>::empty(), f) == Seq::<B>::empty());
    assert(Seq::<B>::empty() + f(x) =~= f(x));
}

/// Two slots emit their fragments in slot order.
pub proof fn lemma_concat_frags_pair<A, B>(x: A, y: A, f: spec_fn(A) -> Seq<B>)
    ensures
        concat_frags(seq![x, y], f) == f(x) + f(y),
{
    assert(seq![x, y].drop_last() =~= seq![x]);
    assert(seq![x, y].last() == y);
    lemma_concat_frags_singleton(x, f);
}

/// Reordering the slot list reorders the emitted fragments but keeps them
/// the same as a multiset: the fragments a permuted list contributes are a
/// permutation of grouped blocks of the original contribution.
pub proof fn lemma_concat_frags_permutation<A, B>(s1: Seq<A>, s2: Seq<A>, f: spec_fn(A) -> Seq<B>)
    requires
        s1.to_multiset() == s2.to_multiset(),
    ensures
        concat_frags(s1, f).to_multiset() == concat_frags(s2, f).to_multiset(),
    decreases s1.len(),
{
    broadcast use vstd::seq_lib::group_to_multiset_ensures;
    broadcast use vstd::multiset::group_multiset_axioms;

    if s1.len() == 0 {
        assert(s1.to_multiset().len() == 0);
        assert(s2.to_multiset().len() == 0);
        assert(s2.len() == 0);
    } else {
        let x = s1.last();
        assert(s1.to_multiset().count(x) > 0) by {
            assert(s1.contains(x));
        }
        assert(s2.contains(x));
        let i = choose|i: int| 0 <= i < s2.len() && s2[i] == x;
        let a = s2.take(i);
        let b = s2.skip(i + 1);
        assert(s2 =~= (a + seq![x]) + b);
        assert(s2.remove(i) =~= a + b);
        assert(s1.drop_last() =~= s1.remove(s1.len() - 1));
        assert(s1.drop_last().to_multiset() == s1.to_multiset().remove(x));
        assert(s2.remove(i).to_multiset() == s2.to_multiset().remove(x));
        lemma_concat_frags_permutation(s1.drop_last(), a + b, f);
        lemma_concat_frags_concat(a + seq![x], b, f);
        lemma_concat_frags_concat(a, seq![x], f);
        lemma_concat_frags_concat(a, b, f);
        lemma_concat_frags_singleton(x, f);
        vstd::seq_lib::lemma_multiset_commutative(
            concat_frags(a + seq![x], f),
            concat_frags(b, f),
        );
        vstd::seq_lib::lemma_multiset_commutative(concat_frags(a, f), f(x));
        vstd::seq_lib::lemma_multiset_commutative(concat_frags(a, f), concat_frags(b, f));
        vstd::seq_lib::lemma_multiset_commutative(concat_frags(s1.drop_last(), f), f(x));
        assert(concat_frags(s1, f) == concat_frags(s1.drop_last(), f) + f(x));
        assert(concat_frags(s1, f).to_multiset() =~= concat_frags(s2, f).to_multiset());
    }
}

} // verus!
