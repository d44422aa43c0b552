//! Laws relating the list operations, stated over the sequence view their
//! contracts use and proved once for every element type and every list state.

use crate::list::split_point;
use vstd::prelude::*;

verus! {

/// Prepending `x` and then shifting returns `x` and restores the prior list:
/// after `prepend(x)` the view is `seq![x] + s`, and `shift` on that view
/// yields its first element `x` and leaves `s`.
pub proof fn lemma_prepend_then_shift<T>(s: Seq<T>, x: T)
    ensures
        (seq![x] + s).len() > 0,
        (seq![x] + s)[0] == x,
        (seq![x] + s).drop_first() == s,
{
    assert((seq![x] + s).drop_first() =~= s);
}

/// Inserting at position 0 is exactly prepending, on any list state.
pub proof fn lemma_insert_front_is_prepend<T>(s: Seq<T>, x: T)
    ensures
        s.insert(0, x) == seq![x] + s,
{
    assert(s.insert(0, x) =~= seq![x] + s);
}

/// The two halves of a front/back split, front first, rejoin to the original
/// sequence, whatever its parity.
pub proof fn lemma_split_halves_rejoin<T>(s: Seq<T>)
    ensures
        s.take(split_point(s.len() as int)) + s.skip(split_point(s.len() as int)) == s,
{
    assert(s.take(split_point(s.len() as int)) + s.skip(split_point(s.len() as int)) =~= s);
}

/// `find` and `contains` agree: a found index holds the sought element, and
/// the element is then contained; a failed search means it is not contained.
/// The hypothesis on `r` is exactly what `find` ensures of its result.
pub proof fn lemma_find_reports_membership<T>(s: Seq<T>, e: T, r: Option<int>)
    requires
        match r {
            Some(i) => 0 <= i < s.len() && s[i] == e && (forall|j: int| 0 <= j < i ==> s[j] != e),
            None => forall|j: int| 0 <= j < s.len() ==> s[j] != e,
        },
    ensures
        match r {
            Some(i) => s[i] == e && s.contains(e),
            None => !s.contains(e),
        },
{
    match r {
        Some(i) => {
            assert(s.contains(e)) by {
                assert(s[i] == e);
            }
        },
        None => {
            if s.contains(e) {
                let j = choose|j: int| 0 <= j < s.len() && s[j] == e;
                assert(s[j] != e);
            }
        },
    }
}

} // verus!
