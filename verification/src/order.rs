//! Sorting by a total preorder.

use vstd::prelude::*;
use vstd::multiset::Multiset;

verus! {

broadcast use {vstd::seq_lib::group_to_multiset_ensures, vstd::multiset::group_multiset_axioms};

/// Values with a total preorder: `precedes(a, b)` means `a` may be placed
/// before `b` in a sorted sequence.
pub trait Ranked: Sized {
    spec fn precedes(self, other: Self) -> bool;

    proof fn lemma_precedes_transitive(a: Self, b: Self, c: Self)
        requires
            a.precedes(b),
            b.precedes(c),
        ensures
            a.precedes(c),
    ;

    proof fn lemma_precedes_total(a: Self, b: Self)
        ensures
            a.precedes(b) || b.precedes(a),
    ;

    fn precedes_exec(&self, other: &Self) -> (r: bool)
        ensures
            r == self.precedes(*other),
    ;
}

/// Every element precedes every later one.
pub open spec fn sorted_by_rank<T: Ranked>(s: Seq<T>) -> bool {
    forall|i: int, j: int| 0 <= i < j < s.len() ==> #[trigger] s[i].precedes(#[trigger] s[j])
}

proof fn lemma_insert_to_multiset<T>(s: Seq<T>, p: int, x: T)
    requires
        0 <= p <= s.len(),
    ensures
        s.insert(p, x).to_multiset() =~= s.to_multiset().insert(x),
{
    let a = s.subrange(0, p);
    let b = s.subrange(p, s.len() as int);
    assert(s =~= a + b);
    assert(s.insert(p, x) =~= a.push(x) + b);
    vstd::seq_lib::lemma_multiset_commutative(a, b);
    vstd::seq_lib::lemma_multiset_commutative(a.push(x), b);
}

/// The elements of `v`, reordered so that each precedes every later one.
pub fn sort_ranked<T: Ranked>(v: Vec<T>) -> (r: Vec<T>)
    ensures
        r@.to_multiset() == v@.to_multiset(),
        sorted_by_rank(r@),
{
    let ghost original = v@;
    let mut input = v;
    let mut r: Vec<T> = Vec::new();
    assert(r@.to_multiset() =~= Multiset::<T>::empty());
    while input.len() > 0
        invariant
            r@.to_multiset().add(input@.to_multiset()) == original.to_multiset(),
            sorted_by_rank(r@),
        decreases input.len(),
    {
        let ghost before_input = input@;
        let x = input.remove(0);
        let mut p: usize = 0;
        while p < r.len() && r[p].precedes_exec(&x)
            invariant
                p <= r.len(),
                forall|j: int| 0 <= j < p ==> #[trigger] r@[j].precedes(x),
            decreases r.len() - p,
        {
            p = p + 1;
        }
        let ghost old_r = r@;
        r.insert(p, x);
        proof {
            lemma_insert_to_multiset(old_r, p as int, x);
            assert(before_input.to_multiset() =~= input@.to_multiset().insert(x)) by {
                assert(input@ =~= before_input.remove(0));
            }
            assert(r@.to_multiset().add(input@.to_multiset()) =~= original.to_multiset());
            if p < old_r.len() {
                T::lemma_precedes_total(old_r[p as int], x);
            }
            assert forall|i: int, j: int| 0 <= i < j < r@.len() implies #[trigger] r@[i].precedes(
                #[trigger] r@[j],
            ) by {
                if j < p {
                } else if j == p {
                } else if i < p {
                    // r[j] is old_r[j - 1], after x
                    if j - 1 > p {
                        T::lemma_precedes_transitive(x, old_r[p as int], old_r[j - 1]);
                    }
                    T::lemma_precedes_transitive(old_r[i], x, old_r[j - 1]);
                } else if i == p {
                    if j - 1 > p {
                        T::lemma_precedes_transitive(x, old_r[p as int], old_r[j - 1]);
                    }
                } else {
                    assert(old_r[i - 1].precedes(old_r[j - 1]));
                }
            }
        }
    }
    assert(input@.to_multiset() =~= Multiset::<T>::empty());
    r
}

} // verus!
