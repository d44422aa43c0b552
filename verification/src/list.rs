//! The list structure itself: a chain of exclusively owned nodes, viewed
//! abstractly as the sequence of its elements in chain order.

use vstd::laws_eq::obeys_concrete_eq;
use vstd::prelude::*;

verus! {

/// One element slot plus ownership of the rest of the chain.
#[derive(Debug)]
pub struct Node<T> {
    pub elem: T,
    pub next: Option<Box<Node<T>>>,
}

/// A singly-linked list owning its head node (and, transitively, the chain).
#[derive(Debug)]
pub struct List<T> {
    pub head: Option<Box<Node<T>>>,
}

/// The elements held in an ownership slot: empty for the end of a chain.
pub open spec fn seq_of<T>(node: Option<Box<Node<T>>>) -> Seq<T>
    decreases node,
{
    match node {
        None => Seq::empty(),
        Some(n) => seq![n.elem] + seq_of(n.next),
    }
}

impl<T> Node<T> {
    /// The elements reachable from this node, in chain order.
    pub open spec fn as_seq(self) -> Seq<T> {
        seq![self.elem] + seq_of(self.next)
    }
}

impl<T> View for List<T> {
    type V = Seq<T>;

    open spec fn view(&self) -> Seq<T> {
        seq_of(self.head)
    }
}

/// An empty list.
pub fn new<T>() -> (r: List<T>)
    ensures
        r@ == Seq::<T>::empty(),
{
    List { head: None }
}

/// Builds a list from a vector by repeated append, preserving order.
pub fn from_vec<T>(vec: Vec<T>) -> (r: List<T>)
    ensures
        r@ == vec@,
{
    let ghost items = vec@;
    let mut vec = vec;
    let mut list: List<T> = new();
    while vec.len() > 0
        invariant
            list@ + vec@ == items,
        decreases vec@.len(),
    {
        let elem = vec.remove(0);
        list.append(elem);
        proof {
            assert(list@ + vec@ =~= items);
        }
    }
    proof {
        assert(list@ =~= items);
    }
    list
}

fn append_rec<T>(node: &mut Option<Box<Node<T>>>, elem: T)
    ensures
        seq_of(*final(node)) == seq_of(*old(node)).push(elem),
    decreases *old(node),
{
    match node.take() {
        None => {
            *node = Some(Box::new(Node { elem, next: None }));
            proof {
                assert(seq_of(*node) =~= seq_of(*old(node)).push(elem));
            }
        },
        Some(mut boxed) => {
            append_rec(&mut boxed.next, elem);
            *node = Some(boxed);
            proof {
                assert(seq_of(*node) =~= seq_of(*old(node)).push(elem));
            }
        },
    }
}

fn insert_rec<T>(node: &mut Option<Box<Node<T>>>, index: usize, elem: T)
    requires
        index >= 1,
    ensures
        seq_of(*final(node)) == (if index <= seq_of(*old(node)).len() {
            seq_of(*old(node)).insert(index as int, elem)
        } else {
            seq_of(*old(node))
        }),
    decreases *old(node),
{
    match node.take() {
        None => {
            *node = None;
        },
        Some(mut boxed) => {
            if index == 1 {
                let rest = boxed.next.take();
                boxed.next = Some(Box::new(Node { elem, next: rest }));
                *node = Some(boxed);
                proof {
                    reveal_with_fuel(seq_of, 3);
                    assert(seq_of(*node) =~= seq_of(*old(node)).insert(1, elem));
                }
            } else {
                insert_rec(&mut boxed.next, index - 1, elem);
                *node = Some(boxed);
                proof {
                    if index <= seq_of(*old(node)).len() {
                        assert(seq_of(*node) =~= seq_of(*old(node)).insert(index as int, elem));
                    } else {
                        assert(seq_of(*node) =~= seq_of(*old(node)));
                    }
                }
            }
        },
    }
}

fn remove_rec<T>(node: &mut Option<Box<Node<T>>>, index: usize)
    requires
        index >= 1,
    ensures
        seq_of(*final(node)) == (if index < seq_of(*old(node)).len() {
            seq_of(*old(node)).remove(index as int)
        } else {
            seq_of(*old(node))
        }),
    decreases *old(node),
{
    match node.take() {
        None => {
            *node = None;
        },
        Some(mut boxed) => {
            if index == 1 {
                boxed.next = match boxed.next.take() {
                    Some(removed) => removed.next,
                    None => None,
                };
                *node = Some(boxed);
                proof {
                    reveal_with_fuel(seq_of, 4);
                    if 1 < seq_of(*old(node)).len() {
                        assert(seq_of(*node) =~= seq_of(*old(node)).remove(1));
                    } else {
                        assert(seq_of(*node) =~= seq_of(*old(node)));
                    }
                }
            } else {
                remove_rec(&mut boxed.next, index - 1);
                *node = Some(boxed);
                proof {
                    if index < seq_of(*old(node)).len() {
                        assert(seq_of(*node) =~= seq_of(*old(node)).remove(index as int));
                    } else {
                        assert(seq_of(*node) =~= seq_of(*old(node)));
                    }
                }
            }
        },
    }
}

fn pop_rec<T>(node: &mut Option<Box<Node<T>>>) -> (r: Option<T>)
    ensures
        match r {
            Some(v) => seq_of(*old(node)).len() > 0 && v == seq_of(*old(node)).last() && seq_of(
                *final(node),
            ) == seq_of(*old(node)).drop_last(),
            None => seq_of(*old(node)).len() == 0 && seq_of(*final(node)) == seq_of(*old(node)),
        },
    decreases *old(node),
{
    match node.take() {
        None => None,
        Some(mut boxed) => {
            if boxed.next.is_none() {
                let Node { elem, next } = *boxed;
                *node = None;
                proof {
                    assert(seq_of(*node) =~= seq_of(*old(node)).drop_last());
                }
                Some(elem)
            } else {
                let r = pop_rec(&mut boxed.next);
                *node = Some(boxed);
                proof {
                    assert(seq_of(*node) =~= seq_of(*old(node)).drop_last());
                }
                r
            }
        },
    }
}

fn last_rec<'a, T>(node: &'a Node<T>) -> (r: &'a T)
    ensures
        *r == node.as_seq().last(),
    decreases node,
{
    match &node.next {
        None => &node.elem,
        Some(next) => last_rec(next),
    }
}

fn at_rec<'a, T>(node: &'a Option<Box<Node<T>>>, index: usize) -> (r: Option<&'a T>)
    ensures
        match r {
            Some(v) => index < seq_of(*node).len() && *v == seq_of(*node)[index as int],
            None => index >= seq_of(*node).len(),
        },
    decreases node,
{
    match node {
        None => None,
        Some(n) => {
            if index == 0 {
                Some(&n.elem)
            } else {
                at_rec(&n.next, index - 1)
            }
        },
    }
}

fn len_rec<T>(node: &Option<Box<Node<T>>>) -> (r: usize)
    requires
        seq_of(*node).len() <= usize::MAX,
    ensures
        r == seq_of(*node).len(),
    decreases node,
{
    match node {
        None => 0,
        Some(n) => 1 + len_rec(&n.next),
    }
}

fn contains_rec<T: PartialEq>(node: &Option<Box<Node<T>>>, elem: &T) -> (r: bool)
    requires
        obeys_concrete_eq::<T>(),
    ensures
        r == seq_of(*node).contains(*elem),
    decreases node,
{
    proof {
        reveal(obeys_concrete_eq);
    }
    match node {
        None => {
            proof {
                assert(!seq_of(*node).contains(*elem));
            }
            false
        },
        Some(n) => {
            if n.elem == *elem {
                proof {
                    assert(seq_of(*node)[0] == *elem);
                }
                true
            } else {
                let r = contains_rec(&n.next, elem);
                proof {
                    let s = seq_of(*node);
                    let rest = seq_of(n.next);
                    assert(forall|i: int| 0 <= i < rest.len() ==> rest[i] == s[i + 1]);
                    if r {
                        let i = choose|i: int| 0 <= i < rest.len() && rest[i] == *elem;
                        assert(s[i + 1] == *elem);
                    } else {
                        assert forall|i: int| 0 <= i < s.len() implies s[i] != *elem by {
                            if i > 0 {
                                assert(rest[i - 1] == s[i]);
                            }
                        }
                    }
                }
                r
            }
        },
    }
}

fn find_rec<T: PartialEq>(node: &Option<Box<Node<T>>>, elem: &T) -> (r: Option<usize>)
    requires
        obeys_concrete_eq::<T>(),
        seq_of(*node).len() <= usize::MAX,
    ensures
        match r {
            Some(i) => i < seq_of(*node).len() && seq_of(*node)[i as int] == *elem && (forall|
                j: int,
            |
                0 <= j < i ==> seq_of(*node)[j] != *elem),
            None => forall|j: int| 0 <= j < seq_of(*node).len() ==> seq_of(*node)[j] != *elem,
        },
    decreases node,
{
    proof {
        reveal(obeys_concrete_eq);
    }
    match node {
        None => None,
        Some(n) => {
            if n.elem == *elem {
                Some(0)
            } else {
                let ghost s = seq_of(*node);
                let ghost rest = seq_of(n.next);
                proof {
                    assert(forall|j: int| 0 <= j < rest.len() ==> rest[j] == s[j + 1]);
                }
                match find_rec(&n.next, elem) {
                    Some(i) => {
                        proof {
                            assert(s[i + 1] == rest[i as int]);
                            assert forall|j: int| 0 <= j < i + 1 implies s[j] != *elem by {
                                if j > 0 {
                                    assert(rest[j - 1] == s[j]);
                                }
                            }
                        }
                        Some(i + 1)
                    },
                    None => {
                        proof {
                            assert forall|j: int| 0 <= j < s.len() implies s[j] != *elem by {
                                if j > 0 {
                                    assert(rest[j - 1] == s[j]);
                                }
                            }
                        }
                        None
                    },
                }
            }
        },
    }
}

impl<T> List<T> {
    /// Attaches a new node holding `elem` at the end of the chain.
    pub fn append(&mut self, elem: T)
        ensures
            final(self)@ == old(self)@.push(elem),
    {
        append_rec(&mut self.head, elem);
    }

    /// A new node holding `elem` takes ownership of the current head and
    /// becomes the new head.
    pub fn prepend(&mut self, elem: T)
        ensures
            final(self)@ == seq![elem] + old(self)@,
    {
        let rest = self.head.take();
        self.head = Some(Box::new(Node { elem, next: rest }));
    }

    /// Removes and returns the first element, promoting its successor.
    pub fn shift(&mut self) -> (r: Option<T>)
        ensures
            match r {
                Some(v) => old(self)@.len() > 0 && v == old(self)@[0] && final(self)@ == old(
                    self,
                )@.drop_first(),
                None => old(self)@.len() == 0 && final(self)@ == old(self)@,
            },
    {
        match self.head.take() {
            None => None,
            Some(boxed) => {
                let Node { elem, next } = *boxed;
                self.head = next;
                Some(elem)
            },
        }
    }

    /// Inserts `elem` at position `index`. At index 0 this is `prepend`;
    /// with an anchor index past the end of the list it is a silent no-op.
    pub fn insert_at(&mut self, index: usize, elem: T)
        ensures
            final(self)@ == (if index <= old(self)@.len() {
                old(self)@.insert(index as int, elem)
            } else {
                old(self)@
            }),
    {
        if index == 0 {
            self.prepend(elem);
            proof {
                assert(seq![elem] + old(self)@ =~= old(self)@.insert(0, elem));
            }
            return ;
        }
        insert_rec(&mut self.head, index, elem);
    }

    /// Removes the element at position `index`. At index 0 this is `shift`;
    /// with an anchor index past the end of the list it is a silent no-op.
    pub fn remove_at(&mut self, index: usize)
        ensures
            final(self)@ == (if index < old(self)@.len() {
                old(self)@.remove(index as int)
            } else {
                old(self)@
            }),
    {
        if index == 0 {
            self.shift();
            proof {
                if 0 < old(self)@.len() {
                    assert(old(self)@.drop_first() =~= old(self)@.remove(0));
                }
            }
            return ;
        }
        remove_rec(&mut self.head, index);
    }

    /// Removes and returns the last element; absent iff the list is empty.
    pub fn pop(&mut self) -> (r: Option<T>)
        ensures
            match r {
                Some(v) => old(self)@.len() > 0 && v == old(self)@.last() && final(self)@ == old(
                    self,
                )@.drop_last(),
                None => old(self)@.len() == 0 && final(self)@ == old(self)@,
            },
    {
        pop_rec(&mut self.head)
    }

    /// Read-only access to the value of the last element; absent iff empty.
    pub fn tail(&self) -> (r: Option<&T>)
        ensures
            match r {
                Some(v) => self@.len() > 0 && *v == self@.last(),
                None => self@.len() == 0,
            },
    {
        match &self.head {
            Some(node) => Some(last_rec(node)),
            None => None,
        }
    }

    /// Read-only access to the element at `index`; absent iff out of range.
    pub fn at(&self, index: usize) -> (r: Option<&T>)
        ensures
            match r {
                Some(v) => index < self@.len() && *v == self@[index as int],
                None => index >= self@.len(),
            },
    {
        at_rec(&self.head, index)
    }

    /// Read-only access to the first element; absent iff the list is empty.
    pub fn head(&self) -> (r: Option<&T>)
        ensures
            match r {
                Some(v) => self@.len() > 0 && *v == self@[0],
                None => self@.len() == 0,
            },
    {
        match &self.head {
            Some(node) => Some(&node.elem),
            None => None,
        }
    }

    /// Counts the nodes by a full traversal of the chain.
    pub fn size(&self) -> (r: usize)
        requires
            self@.len() <= usize::MAX,
        ensures
            r == self@.len(),
    {
        len_rec(&self.head)
    }

    /// Whether some element of the list equals `elem`.
    pub fn contains(&self, elem: &T) -> (r: bool) where T: PartialEq
        requires
            obeys_concrete_eq::<T>(),
        ensures
            r == self@.contains(*elem),
    {
        contains_rec(&self.head, elem)
    }

    /// The index of the first element equal to `elem`; absent if there is none.
    pub fn find(&self, elem: &T) -> (r: Option<usize>) where T: PartialEq
        requires
            obeys_concrete_eq::<T>(),
            self@.len() <= usize::MAX,
        ensures
            match r {
                Some(i) => i < self@.len() && self@[i as int] == *elem && (forall|j: int|
                    0 <= j < i ==> self@[j] != *elem),
                None => forall|j: int| 0 <= j < self@.len() ==> self@[j] != *elem,
            },
    {
        find_rec(&self.head, elem)
    }

    /// A borrowing traversal over the list, from the head on.
    pub fn iter(&self) -> (r: ListIter<'_, T>)
        ensures
            r@ == self@,
    {
        match &self.head {
            Some(node) => ListIter { next: Some(node) },
            None => ListIter { next: None },
        }
    }

    /// Drains the list front to back by repeated `shift`, collecting the
    /// elements into a vector in their original order.
    pub fn into_vec(self) -> (r: Vec<T>)
        ensures
            r@ == self@,
    {
        let ghost items = self@;
        let mut rest = self;
        let mut out: Vec<T> = Vec::new();
        loop
            invariant
                out@ + rest@ == items,
            ensures
                out@ == items,
            decreases rest@.len(),
        {
            match rest.shift() {
                Some(elem) => {
                    out.push(elem);
                    proof {
                        assert(out@ + rest@ =~= items);
                    }
                },
                None => {
                    proof {
                        assert(out@ + rest@ =~= out@);
                    }
                    break ;
                },
            }
        }
        out
    }
}

/// How many elements of a list of length `n` the front half receives:
/// half the list, with the extra element on an odd length.
pub open spec fn split_point(n: int) -> int {
    (n + 1) / 2
}

/// Peeling one element off a suffix of `s` advances the suffix by one.
proof fn lemma_suffix_step<T>(s: Seq<T>, i: int, e: T, rest: Seq<T>)
    requires
        0 <= i < s.len(),
        s.skip(i) == seq![e] + rest,
    ensures
        e == s[i],
        rest == s.skip(i + 1),
{
    assert(s.skip(i).len() == s.len() - i);
    assert((seq![e] + rest).len() == 1 + rest.len());
    assert(s.skip(i)[0] == s[i]);
    assert((seq![e] + rest)[0] == e);
    assert forall|k: int| 0 <= k < rest.len() implies rest[k] == s[i + 1 + k] by {
        assert(k + 1 < s.skip(i).len());
        assert((seq![e] + rest)[k + 1] == rest[k]);
        assert(s.skip(i)[k + 1] == s[i + k + 1]);
    }
    assert(rest =~= s.skip(i + 1));
}

fn copy_all_rec<T: Copy>(node: &Option<Box<Node<T>>>) -> (r: List<T>)
    ensures
        r@ == seq_of(*node),
    decreases node,
{
    match node {
        None => new(),
        Some(n) => {
            let mut rest = copy_all_rec(&n.next);
            rest.prepend(n.elem);
            rest
        },
    }
}

fn split_rec<T: Copy>(
    slow: &Option<Box<Node<T>>>,
    fast: &Option<Box<Node<T>>>,
    Ghost(s): Ghost<Seq<T>>,
    Ghost(i): Ghost<int>,
) -> (r: (List<T>, List<T>))
    requires
        0 <= i,
        2 * i <= s.len(),
        seq_of(*slow) == s.skip(i),
        seq_of(*fast) == s.skip(2 * i),
    ensures
        r.0@ == s.subrange(i, split_point(s.len() as int)),
        r.1@ == s.skip(split_point(s.len() as int)),
    decreases fast,
{
    let ghost n = s.len() as int;
    match fast {
        None => {
            // the fast cursor has reached the end: an even length, the
            // remaining elements all belong to the back half
            let back = copy_all_rec(slow);
            proof {
                assert(2 * i == n);
                assert(Seq::<T>::empty() =~= s.subrange(i, split_point(n)));
            }
            (new(), back)
        },
        Some(f1) => {
            match &f1.next {
                None => {
                    // one element remains ahead of the fast cursor: an odd
                    // length, the element under the slow cursor closes the
                    // front half
                    proof {
                        assert(seq_of(*fast) == seq![f1.elem] + seq_of(f1.next));
                        assert(2 * i + 1 == n);
                    }
                    match slow {
                        Some(sn) => {
                            let mut front = new();
                            front.prepend(sn.elem);
                            let back = copy_all_rec(&sn.next);
                            proof {
                                assert(seq_of(*slow) == seq![sn.elem] + seq_of(sn.next));
                                lemma_suffix_step(s, i, sn.elem, seq_of(sn.next));
                                assert(front@ =~= s.subrange(i, split_point(n)));
                            }
                            (front, back)
                        },
                        None => {
                            proof {
                                assert(false);
                            }
                            (new(), new())
                        },
                    }
                },
                Some(f2) => {
                    proof {
                        assert(seq_of(*fast) == seq![f1.elem] + seq_of(f1.next));
                        lemma_suffix_step(s, 2 * i, f1.elem, seq_of(f1.next));
                        assert(seq_of(f1.next) == seq![f2.elem] + seq_of(f2.next));
                        lemma_suffix_step(s, 2 * i + 1, f2.elem, seq_of(f2.next));
                    }
                    match slow {
                        Some(sn) => {
                            proof {
                                assert(seq_of(*slow) == seq![sn.elem] + seq_of(sn.next));
                                lemma_suffix_step(s, i, sn.elem, seq_of(sn.next));
                            }
                            let (mut front, back) = split_rec(
                                &sn.next,
                                &f2.next,
                                Ghost(s),
                                Ghost(i + 1),
                            );
                            front.prepend(sn.elem);
                            proof {
                                assert(front@ =~= s.subrange(i, split_point(n)));
                            }
                            (front, back)
                        },
                        None => {
                            proof {
                                assert(false);
                            }
                            (new(), new())
                        },
                    }
                },
            }
        },
    }
}

impl<T: Copy> List<T> {
    /// Splits the list into its front and back halves by a slow/fast cursor
    /// traversal, copying the elements; on an odd length the front half
    /// receives the extra element. The source list is left untouched.
    pub fn front_back_split(&self) -> (r: (List<T>, List<T>))
        ensures
            r.0@ == self@.take(split_point(self@.len() as int)),
            r.1@ == self@.skip(split_point(self@.len() as int)),
    {
        proof {
            assert(self@.skip(0) =~= self@);
            assert(self@.take(split_point(self@.len() as int)) =~= self@.subrange(
                0,
                split_point(self@.len() as int),
            ));
        }
        split_rec(&self.head, &self.head, Ghost(self@), Ghost(0))
    }
}

/// A borrowing cursor over a chain of nodes: yields references to the
/// elements, from the current node on, without consuming the list.
pub struct ListIter<'a, T> {
    next: Option<&'a Node<T>>,
}

impl<'a, T> View for ListIter<'a, T> {
    type V = Seq<T>;

    closed spec fn view(&self) -> Seq<T> {
        match self.next {
            None => Seq::empty(),
            Some(n) => n.as_seq(),
        }
    }
}

impl<'a, T> ListIter<'a, T> {
    /// Yields a reference to the next element and advances, or reports the
    /// end of the traversal.
    pub fn next(&mut self) -> (r: Option<&'a T>)
        ensures
            match r {
                Some(v) => old(self)@.len() > 0 && *v == old(self)@[0] && final(self)@ == old(
                    self,
                )@.drop_first(),
                None => old(self)@.len() == 0 && final(self)@ == old(self)@,
            },
    {
        match self.next {
            None => None,
            Some(node) => {
                self.next = match &node.next {
                    Some(next) => Some(next),
                    None => None,
                };
                proof {
                    assert(final(self)@ =~= old(self)@.drop_first());
                }
                Some(&node.elem)
            },
        }
    }
}

} // verus!
