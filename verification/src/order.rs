//! The ordering vocabulary for sort-then-merge: the `le` relation a type's
//! comparison induces, ascending sortedness over it, and the facts about the
//! relation that the sorting and merging proofs lean on.

use core::cmp::Ordering;
use vstd::laws_cmp::{obeys_cmp, obeys_cmp_ord, obeys_cmp_partial_ord, obeys_partial_cmp_spec_properties};
use vstd::laws_eq::obeys_eq_spec_properties;
use vstd::prelude::*;
use vstd::std_specs::cmp::{OrdSpec, PartialEqSpec, PartialOrdSpec};

verus! {

/// `a` comes no later than `b` under the type's comparison.
pub open spec fn le_spec<T: PartialOrd>(a: T, b: T) -> bool {
    a.partial_cmp_spec(&b) matches Some(Ordering::Less | Ordering::Equal)
}

/// The sequence is ascending under `le_spec`.
pub open spec fn sorted_le<T: PartialOrd>(s: Seq<T>) -> bool {
    forall|i: int, j: int| 0 <= i < j < s.len() ==> le_spec(s[i], s[j])
}

/// A lawful total order relates every value to itself.
pub proof fn lemma_le_refl<T: Ord>(a: T)
    requires
        obeys_cmp::<T>(),
    ensures
        le_spec(a, a),
{
    reveal(obeys_cmp_ord);
    reveal(obeys_partial_cmp_spec_properties);
    assert(a.partial_cmp_spec(&a) == Some(a.cmp_spec(&a)));
    if a.partial_cmp_spec(&a) == Some(Ordering::Less) {
        assert(a.partial_cmp_spec(&a) == Some(Ordering::Greater));
        assert(false);
    }
    if a.partial_cmp_spec(&a) == Some(Ordering::Greater) {
        assert(a.partial_cmp_spec(&a) == Some(Ordering::Less));
        assert(false);
    }
}

/// A lawful total order relates any two values one way or the other.
pub proof fn lemma_le_total<T: Ord>(a: T, b: T)
    requires
        obeys_cmp::<T>(),
    ensures
        le_spec(a, b) || le_spec(b, a),
{
    reveal(obeys_cmp_ord);
    reveal(obeys_partial_cmp_spec_properties);
    assert(a.partial_cmp_spec(&b) == Some(a.cmp_spec(&b)));
    if a.partial_cmp_spec(&b) == Some(Ordering::Greater) {
        assert(b.partial_cmp_spec(&a) == Some(Ordering::Less));
    }
}

/// Two values a lawful total order does not relate one way it relates the
/// other way.
pub proof fn lemma_le_flip<T: Ord>(a: T, b: T)
    requires
        obeys_cmp::<T>(),
        !le_spec(a, b),
    ensures
        le_spec(b, a),
{
    lemma_le_total(a, b);
}

/// A value a lawful total order does not place strictly before another is
/// placed no earlier than it.
pub proof fn lemma_not_less<T: Ord>(a: T, b: T)
    requires
        obeys_cmp::<T>(),
        a.partial_cmp_spec(&b) != Some(Ordering::Less),
    ensures
        le_spec(b, a),
{
    reveal(obeys_cmp_ord);
    reveal(obeys_partial_cmp_spec_properties);
    reveal(obeys_eq_spec_properties);
    assert(a.partial_cmp_spec(&b) == Some(a.cmp_spec(&b)));
    assert(b.partial_cmp_spec(&a) == Some(b.cmp_spec(&a)));
    if a.partial_cmp_spec(&b) == Some(Ordering::Equal) {
        assert(a.eq_spec(&b));
        assert(b.eq_spec(&a));
        assert(b.partial_cmp_spec(&a) == Some(Ordering::Equal));
    } else {
        assert(a.partial_cmp_spec(&b) == Some(Ordering::Greater));
        assert(b.partial_cmp_spec(&a) == Some(Ordering::Less));
    }
}

/// The `le` relation of a lawful total order is transitive.
pub proof fn lemma_le_trans<T: Ord>(a: T, b: T, c: T)
    requires
        obeys_cmp::<T>(),
        le_spec(a, b),
        le_spec(b, c),
    ensures
        le_spec(a, c),
{
    reveal(obeys_cmp_ord);
    reveal(obeys_cmp_partial_ord);
    reveal(obeys_partial_cmp_spec_properties);
    reveal(obeys_eq_spec_properties);
    assert(a.partial_cmp_spec(&c) == Some(a.cmp_spec(&c)));
    if a.partial_cmp_spec(&c) == Some(Ordering::Greater) {
        assert(c.partial_cmp_spec(&a) == Some(Ordering::Less));
        if a.partial_cmp_spec(&b) == Some(Ordering::Less) {
            if b.partial_cmp_spec(&c) == Some(Ordering::Less) {
                assert(a.partial_cmp_spec(&c) == Some(Ordering::Less));
            } else {
                assert(b.eq_spec(&c));
                assert(c.eq_spec(&b));
                assert(c.partial_cmp_spec(&b) == Some(Ordering::Equal));
                assert(c.partial_cmp_spec(&a) == Some(Ordering::Less));
                assert(c.partial_cmp_spec(&b) == Some(Ordering::Less)) by {
                    assert(a.partial_cmp_spec(&b) == Some(Ordering::Less));
                }
                assert(false);
            }
        } else {
            assert(a.eq_spec(&b));
            if b.partial_cmp_spec(&c) == Some(Ordering::Less) {
                assert(c.partial_cmp_spec(&b) == Some(Ordering::Greater));
                assert(c.partial_cmp_spec(&a) == Some(Ordering::Less));
                assert(a.partial_cmp_spec(&c) == Some(Ordering::Greater));
                assert(b.eq_spec(&a));
                assert(b.partial_cmp_spec(&c) == Some(Ordering::Greater)) by {
                    assert(b.partial_cmp_spec(&a) == Some(Ordering::Equal));
                }
                assert(false);
            } else {
                assert(b.eq_spec(&c));
                assert(a.eq_spec(&c));
                assert(a.partial_cmp_spec(&c) == Some(Ordering::Equal));
                assert(false);
            }
        }
    }
}

} // verus!
