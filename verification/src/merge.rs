//! Two-list sort-then-merge: each list is drained and sorted independently,
//! and the two ascending runs are merged into one ascending list. The result
//! is ascending and holds exactly the elements of both inputs.

use crate::list::{new, List};
use crate::order::{le_spec, lemma_le_flip, lemma_le_refl, lemma_le_trans, lemma_not_less, sorted_le};
use vstd::laws_cmp::{obeys_cmp, obeys_cmp_partial_ord};
use vstd::multiset::Multiset;
use vstd::prelude::*;
use vstd::seq_lib::group_to_multiset_ensures;
use vstd::std_specs::cmp::PartialOrdSpec;

verus! {

broadcast use group_to_multiset_ensures;

/// An index of a least element of a non-empty vector, under the type's
/// comparison.
fn min_index<T: Ord>(v: &Vec<T>) -> (r: usize)
    requires
        obeys_cmp::<T>(),
        v@.len() > 0,
    ensures
        r < v@.len(),
        forall|t: int| 0 <= t < v@.len() ==> le_spec(v@[r as int], v@[t]),
{
    proof {
        reveal(obeys_cmp_partial_ord);
        assert(T::obeys_partial_cmp_spec());
        lemma_le_refl(v@[0]);
    }
    let mut m: usize = 0;
    let mut k: usize = 1;
    while k < v.len()
        invariant
            obeys_cmp::<T>(),
            T::obeys_partial_cmp_spec(),
            m < k <= v@.len(),
            forall|t: int| 0 <= t < k ==> le_spec(v@[m as int], v@[t]),
        decreases v@.len() - k,
    {
        if v[k] < v[m] {
            proof {
                assert(le_spec(v@[k as int], v@[m as int]));
                assert forall|t: int| 0 <= t < k + 1 implies le_spec(v@[k as int], v@[t]) by {
                    if t < k {
                        lemma_le_trans(v@[k as int], v@[m as int], v@[t]);
                    } else {
                        lemma_le_refl(v@[k as int]);
                    }
                }
            }
            m = k;
        } else {
            proof {
                lemma_not_less(v@[k as int], v@[m as int]);
            }
        }
        k = k + 1;
    }
    m
}

/// Sorts a vector ascending under the type's comparison by repeatedly moving
/// a least remaining element to the output; the result holds exactly the
/// input's elements.
pub fn sort_vec<T: Ord>(v: Vec<T>) -> (r: Vec<T>)
    requires
        obeys_cmp::<T>(),
    ensures
        sorted_le(r@),
        r@.to_multiset() == v@.to_multiset(),
        r@.len() == v@.len(),
{
    let ghost orig = v@;
    let mut v = v;
    let mut out: Vec<T> = Vec::new();
    while v.len() > 0
        invariant
            obeys_cmp::<T>(),
            sorted_le(out@),
            forall|p: int, q: int|
                0 <= p < out@.len() && 0 <= q < v@.len() ==> le_spec(out@[p], v@[q]),
            out@.to_multiset().add(v@.to_multiset()) == orig.to_multiset(),
            out@.len() + v@.len() == orig.len(),
        decreases v@.len(),
    {
        let ghost out0 = out@;
        let ghost v0 = v@;
        let m = min_index(&v);
        let x = v.remove(m);
        out.push(x);
        proof {
            assert(v0.contains(x)) by {
                assert(v0[m as int] == x);
            }
            assert(v@ == v0.remove(m as int));
            assert(forall|q: int|
                0 <= q < v@.len() ==> v@[q] == (if q < m {
                    v0[q]
                } else {
                    v0[q + 1]
                }));
            assert(sorted_le(out@)) by {
                assert(forall|p: int| 0 <= p < out0.len() ==> le_spec(out0[p], x));
            }
            assert forall|p: int, q: int|
                0 <= p < out@.len() && 0 <= q < v@.len() implies le_spec(out@[p], v@[q]) by {
                if p < out0.len() {
                    if q < m {
                        assert(le_spec(out0[p], v0[q]));
                    } else {
                        assert(le_spec(out0[p], v0[q + 1]));
                    }
                } else {
                    assert(out@[p] == x);
                    if q < m {
                        assert(le_spec(x, v0[q]));
                    } else {
                        assert(le_spec(x, v0[q + 1]));
                    }
                }
            }
            assert(out@.to_multiset().add(v@.to_multiset()) =~= orig.to_multiset());
        }
    }
    proof {
        assert(v@.to_multiset() =~= Multiset::<T>::empty());
        assert(out@.to_multiset() =~= orig.to_multiset());
    }
    out
}

/// Merges two ascending vectors into one ascending list by repeatedly taking
/// the smaller front element, ties going to the first vector; the result
/// holds exactly the elements of both inputs.
pub fn merge_sorted<T: Ord>(a: Vec<T>, b: Vec<T>) -> (r: List<T>)
    requires
        obeys_cmp::<T>(),
        sorted_le(a@),
        sorted_le(b@),
    ensures
        sorted_le(r@),
        r@.to_multiset() == a@.to_multiset().add(b@.to_multiset()),
        r@.len() == a@.len() + b@.len(),
{
    proof {
        reveal(obeys_cmp_partial_ord);
        assert(T::obeys_partial_cmp_spec());
    }
    let ghost oa = a@;
    let ghost ob = b@;
    let mut a = a;
    let mut b = b;
    let mut out: List<T> = new();
    while a.len() > 0 || b.len() > 0
        invariant
            obeys_cmp::<T>(),
            T::obeys_partial_cmp_spec(),
            sorted_le(a@),
            sorted_le(b@),
            sorted_le(out@),
            forall|p: int, q: int|
                0 <= p < out@.len() && 0 <= q < a@.len() ==> le_spec(out@[p], a@[q]),
            forall|p: int, q: int|
                0 <= p < out@.len() && 0 <= q < b@.len() ==> le_spec(out@[p], b@[q]),
            out@.to_multiset().add(a@.to_multiset()).add(b@.to_multiset()) == oa.to_multiset().add(
                ob.to_multiset(),
            ),
            out@.len() + a@.len() + b@.len() == oa.len() + ob.len(),
        decreases a@.len() + b@.len(),
    {
        let ghost out0 = out@;
        let ghost a0 = a@;
        let ghost b0 = b@;
        let take_a = a.len() > 0 && (b.len() == 0 || a[0] <= b[0]);
        if take_a {
            let x = a.remove(0);
            out.append(x);
            proof {
                assert(a0.contains(x)) by {
                    assert(a0[0] == x);
                }
                assert(a@ == a0.remove(0));
                assert(forall|q: int| 0 <= q < a@.len() ==> a@[q] == a0[q + 1]);
                assert(out@ == out0.push(x));
                lemma_merge_step(out0, a0, b0, x);
                assert(out@.to_multiset().add(a@.to_multiset()).add(b@.to_multiset())
                    =~= oa.to_multiset().add(ob.to_multiset()));
            }
        } else {
            let x = b.remove(0);
            out.append(x);
            proof {
                assert(b0.contains(x)) by {
                    assert(b0[0] == x);
                }
                assert(b@ == b0.remove(0));
                assert(forall|q: int| 0 <= q < b@.len() ==> b@[q] == b0[q + 1]);
                assert(out@ == out0.push(x));
                if a0.len() > 0 {
                    lemma_le_flip(a0[0], b0[0]);
                }
                lemma_merge_step(out0, b0, a0, x);
                assert(out@.to_multiset().add(a@.to_multiset()).add(b@.to_multiset())
                    =~= oa.to_multiset().add(ob.to_multiset()));
            }
        }
    }
    proof {
        assert(a@.to_multiset() =~= Multiset::<T>::empty());
        assert(b@.to_multiset() =~= Multiset::<T>::empty());
        assert(out@.to_multiset() =~= oa.to_multiset().add(ob.to_multiset()));
    }
    out
}

/// One merge step: moving the front element `x` of `own` (no later than all
/// of `own` and than the front of `other`) onto a run that precedes both
/// keeps the run ascending and still preceding both remainders.
proof fn lemma_merge_step<T: Ord>(out0: Seq<T>, own: Seq<T>, other: Seq<T>, x: T)
    requires
        obeys_cmp::<T>(),
        sorted_le(out0),
        sorted_le(own),
        sorted_le(other),
        own.len() > 0,
        own[0] == x,
        other.len() > 0 ==> le_spec(x, other[0]),
        forall|p: int, q: int| 0 <= p < out0.len() && 0 <= q < own.len() ==> le_spec(out0[p], own[q]),
        forall|p: int, q: int|
            0 <= p < out0.len() && 0 <= q < other.len() ==> le_spec(out0[p], other[q]),
    ensures
        sorted_le(out0.push(x)),
        forall|p: int, q: int|
            0 <= p < out0.push(x).len() && 0 <= q < own.remove(0).len() ==> le_spec(
                out0.push(x)[p],
                own.remove(0)[q],
            ),
        forall|p: int, q: int|
            0 <= p < out0.push(x).len() && 0 <= q < other.len() ==> le_spec(
                out0.push(x)[p],
                other[q],
            ),
{
    let out1 = out0.push(x);
    let own1 = own.remove(0);
    assert(forall|q: int| 0 <= q < own1.len() ==> own1[q] == own[q + 1]);
    assert forall|i: int, j: int| 0 <= i < j < out1.len() implies le_spec(out1[i], out1[j]) by {
        if j < out0.len() {
            assert(le_spec(out0[i], out0[j]));
        } else {
            assert(le_spec(out0[i], own[0]));
        }
    }
    assert(sorted_le(out1));
    assert forall|p: int, q: int|
        0 <= p < out1.len() && 0 <= q < own1.len() implies le_spec(out1[p], own1[q]) by {
        if p < out0.len() {
            assert(le_spec(out0[p], own[q + 1]));
        } else {
            assert(out1[p] == x);
            assert(le_spec(own[0], own[q + 1]));
        }
    }
    assert forall|p: int, q: int|
        0 <= p < out1.len() && 0 <= q < other.len() implies le_spec(out1[p], other[q]) by {
        if p < out0.len() {
            assert(le_spec(out0[p], other[q]));
        } else {
            assert(out1[p] == x);
            assert(le_spec(x, other[0]));
            if q > 0 {
                assert(le_spec(other[0], other[q]));
                lemma_le_trans(x, other[0], other[q]);
            }
        }
    }
}

/// Drains both lists, sorts each ascending, and merges the two ascending
/// runs into one ascending list holding exactly the elements of both.
pub fn sort_then_merge<T: Ord>(a: List<T>, b: List<T>) -> (r: List<T>)
    requires
        obeys_cmp::<T>(),
    ensures
        sorted_le(r@),
        r@.to_multiset() == a@.to_multiset().add(b@.to_multiset()),
        r@.len() == a@.len() + b@.len(),
{
    let ghost sa = a@;
    let ghost sb = b@;
    let va = a.into_vec();
    let vb = b.into_vec();
    let sorted_a = sort_vec(va);
    let sorted_b = sort_vec(vb);
    let r = merge_sorted(sorted_a, sorted_b);
    proof {
        assert(r@.len() == r@.to_multiset().len());
        assert(sa.to_multiset().add(sb.to_multiset()).len() == sa.to_multiset().len()
            + sb.to_multiset().len());
    }
    r
}

} // verus!
