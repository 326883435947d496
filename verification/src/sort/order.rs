//! What it means for a sequence to be sorted, and the facts about a total
//! order that the sorting proofs rest on.

use core::cmp::Ordering;
use vstd::laws_cmp::{obeys_cmp, obeys_cmp_ord, obeys_cmp_partial_ord, obeys_partial_cmp_spec_properties};
use vstd::laws_eq::obeys_eq_spec_properties;
use vstd::prelude::*;
use vstd::std_specs::cmp::{PartialEqSpec, PartialOrdSpec, OrdSpec};

verus! {

/// The comparison operators of `T` describe a single total order.
pub open spec fn total_order<T: Ord>() -> bool {
    obeys_cmp::<T>()
}

/// `a` comes before `b` or ties with it.
pub open spec fn le<T: Ord>(a: T, b: T) -> bool {
    a.partial_cmp_spec(&b) == Some(Ordering::Less) || a.partial_cmp_spec(&b) == Some(
        Ordering::Equal,
    )
}

/// `a` comes strictly after `b`.
pub open spec fn gt<T: Ord>(a: T, b: T) -> bool {
    a.partial_cmp_spec(&b) == Some(Ordering::Greater)
}

/// `a` and `b` tie.
pub open spec fn equal<T: Ord>(a: T, b: T) -> bool {
    a.partial_cmp_spec(&b) == Some(Ordering::Equal)
}

/// Every element is `le` all elements after it.
pub open spec fn sorted<T: Ord>(s: Seq<T>) -> bool {
    forall|i: int, j: int| 0 <= i < j < s.len() ==> le(s[i], s[j])
}

/// The first `n` elements are in ascending order.
pub open spec fn sorted_upto<T: Ord>(s: Seq<T>, n: int) -> bool {
    forall|a: int, b: int| 0 <= a < b < n ==> le(s[a], s[b])
}

/// Under a total order the operators `<`, `<=`, `>` and `>=` compute what
/// the order says.
pub proof fn lemma_operators<T: Ord>()
    requires
        total_order::<T>(),
    ensures
        T::obeys_partial_cmp_spec(),
{
    reveal(obeys_cmp_partial_ord);
}

/// Any two elements are comparable, one way or the other.
pub proof fn lemma_total<T: Ord>(a: T, b: T)
    requires
        total_order::<T>(),
    ensures
        le(a, b) != gt(a, b),
        gt(a, b) ==> le(b, a),
        le(a, a),
{
    reveal(obeys_cmp_ord);
    reveal(obeys_partial_cmp_spec_properties);
    assert(a.partial_cmp_spec(&b) == Some(a.cmp_spec(&b)));
    assert(a.partial_cmp_spec(&a) == Some(a.cmp_spec(&a)));
    if gt(a, b) {
        assert(b.partial_cmp_spec(&a) == Some(Ordering::Less));
    }
    if a.partial_cmp_spec(&a) == Some(Ordering::Less) {
        assert(a.partial_cmp_spec(&a) == Some(Ordering::Greater));
    }
}

/// Elements that tie are `le` each other.
pub proof fn lemma_equal<T: Ord>(a: T, b: T)
    requires
        total_order::<T>(),
        equal(a, b),
    ensures
        le(a, b),
        le(b, a),
{
    reveal(obeys_partial_cmp_spec_properties);
    reveal(obeys_eq_spec_properties);
    assert(a.eq_spec(&b));
    assert(b.eq_spec(&a));
}

/// `le` is transitive.
pub proof fn lemma_le_trans<T: Ord>(a: T, b: T, c: T)
    requires
        total_order::<T>(),
        le(a, b),
        le(b, c),
    ensures
        le(a, c),
{
    reveal(obeys_cmp_ord);
    reveal(obeys_partial_cmp_spec_properties);
    assert(a.partial_cmp_spec(&c) == Some(a.cmp_spec(&c)));
    if gt(a, c) {
        // c < a; together with a <= b <= c this closes a cycle
        assert(c.partial_cmp_spec(&a) == Some(Ordering::Less));
        if a.partial_cmp_spec(&b) == Some(Ordering::Less) {
            assert(c.partial_cmp_spec(&b) == Some(Ordering::Less));
            assert(b.partial_cmp_spec(&c) == Some(Ordering::Greater));
        } else if b.partial_cmp_spec(&c) == Some(Ordering::Less) {
            assert(b.partial_cmp_spec(&a) == Some(Ordering::Less));
            assert(a.partial_cmp_spec(&b) == Some(Ordering::Greater));
        } else {
            reveal(obeys_eq_spec_properties);
            assert(a.eq_spec(&b));
            assert(b.eq_spec(&c));
            assert(a.eq_spec(&c));
        }
    }
}

/// The sequence `s` with the elements at `i` and `j` exchanged.
pub open spec fn exchanged<T>(s: Seq<T>, i: int, j: int) -> Seq<T> {
    s.update(i, s[j]).update(j, s[i])
}

/// Exchanging two elements does not change which elements a sequence holds.
pub proof fn lemma_swap_keeps_elements<T>(s: Seq<T>, i: int, j: int)
    requires
        0 <= i < s.len(),
        0 <= j < s.len(),
    ensures
        exchanged(s, i, j).to_multiset() == s.to_multiset(),
{
    broadcast use {vstd::seq_lib::to_multiset_update, vstd::seq_lib::to_multiset_contains};
    let mid = s.update(i, s[j]);
    assert(s.contains(s[i]));
    assert(mid.contains(mid[j]));
    assert(mid.to_multiset() =~= s.to_multiset().insert(s[j]).remove(s[i]));
    assert(exchanged(s, i, j).to_multiset() =~= mid.to_multiset().insert(s[i]).remove(mid[j]));
    assert(exchanged(s, i, j).to_multiset() =~= s.to_multiset());
}

} // verus!
