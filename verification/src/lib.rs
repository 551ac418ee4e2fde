//! A singly linked chain of heap-allocated nodes, used as a stack of text
//! values: elements are pushed and popped at the head, inspected with `peek`,
//! walked front to back by iterators, and rendered as a bracketed,
//! comma-separated string.
//!
//! The abstract model of a list is the sequence of its element contents in
//! head-to-tail order, so the head (the most recently pushed element) is the
//! first entry of the model.
use vstd::prelude::*;

verus! {

use vstd::string::StringExecFns;

/// One chain link: an element's contents and the ownership of its successor,
/// if any. Its fields are an implementation detail; it is named publicly so
/// that the contracts of the mutating iterator can speak of the chain a
/// borrowed node heads.
pub struct Node {
    data: String,
    next: Option<Box<Node>>,
}

/// A stack of `String` values kept as a chain of singly linked nodes, each
/// owned by its predecessor, together with a running count of the nodes.
pub struct LinkedList {
    head: Option<Box<Node>>,
    size: usize,
}

impl Node {
    /// The contents of the chain starting at this node, in chain order.
    pub closed spec fn chain(self) -> Seq<Seq<char>>
        decreases self,
    {
        seq![self.data@] + match self.next {
            None => Seq::<Seq<char>>::empty(),
            Some(n) => n.chain(),
        }
    }
}

/// The contents of the chain starting at an optional owned node.
spec fn opt_chain(o: Option<Box<Node>>) -> Seq<Seq<char>>
    decreases o,
{
    match o {
        None => Seq::<Seq<char>>::empty(),
        Some(n) => n.chain(),
    }
}

/// The contents of the chain starting at an optional borrowed node.
spec fn opt_ref_chain(o: Option<&Node>) -> Seq<Seq<char>> {
    match o {
        None => Seq::<Seq<char>>::empty(),
        Some(n) => n.chain(),
    }
}

/// The elements joined by a comma and a space, with no separator before the
/// first element or after the last.
pub open spec fn comma_joined(elems: Seq<Seq<char>>) -> Seq<char>
    decreases elems.len(),
{
    if elems.len() == 0 {
        Seq::<char>::empty()
    } else if elems.len() == 1 {
        elems[0]
    } else {
        elems[0] + seq![',', ' '] + comma_joined(elems.drop_first())
    }
}

/// The textual rendering of a list's contents: the elements joined by
/// `", "` between one `'['` and one `']'`.
pub open spec fn rendered(elems: Seq<Seq<char>>) -> Seq<char> {
    seq!['['] + comma_joined(elems) + seq![']']
}

/// Unfolds `comma_joined` one element at a time.
proof fn lemma_comma_joined_step(x: Seq<char>, rest: Seq<Seq<char>>)
    ensures
        comma_joined(seq![x] + rest) == if rest.len() == 0 {
            x
        } else {
            x + seq![',', ' '] + comma_joined(rest)
        },
{
    let whole = seq![x] + rest;
    assert(whole[0] == x);
    if rest.len() == 0 {
        assert(whole.len() == 1);
    } else {
        assert(whole.drop_first() =~= rest);
    }
}

impl View for LinkedList {
    type V = Seq<Seq<char>>;

    closed spec fn view(&self) -> Seq<Seq<char>> {
        opt_chain(self.head)
    }
}

impl LinkedList {
    /// The stored count agrees with the number of nodes on the chain.
    pub closed spec fn well_formed(self) -> bool {
        self.size == self@.len()
    }

    /// Returns an empty list.
    pub fn new() -> (list: LinkedList)
        ensures
            list.well_formed(),
            list@ == Seq::<Seq<char>>::empty(),
    {
        LinkedList { head: None, size: 0 }
    }

    /// Prepends `data` as the new head; the previous contents follow it.
    pub fn push(&mut self, data: String)
        requires
            old(self).well_formed(),
            old(self)@.len() < usize::MAX,
        ensures
            final(self).well_formed(),
            final(self)@ == seq![data@] + old(self)@,
    {
        let next = self.head.take();
        let new_node = Box::new(Node { data, next });
        self.head = Some(new_node);
        self.size = self.size + 1;
    }

    /// Detaches the head and returns its contents; `None` exactly when the
    /// list is empty, in which case nothing changes.
    pub fn pop(&mut self) -> (r: Option<String>)
        requires
            old(self).well_formed(),
        ensures
            final(self).well_formed(),
            old(self)@.len() == 0 ==> r is None && final(self)@ == old(self)@,
            old(self)@.len() > 0 ==> r is Some && r.unwrap()@ == old(self)@[0]
                && final(self)@ == old(self)@.drop_first(),
    {
        match self.head.take() {
            None => None,
            Some(boxed) => {
                let node = *boxed;
                self.head = node.next;
                self.size = self.size - 1;
                proof {
                    assert(final(self)@ =~= old(self)@.drop_first());
                }
                Some(node.data)
            },
        }
    }

    /// Returns the number of elements.
    pub fn len(&self) -> (n: usize)
        requires
            self.well_formed(),
        ensures
            n == self@.len(),
    {
        self.size
    }

    /// Returns whether the list holds no elements.
    pub fn is_empty(&self) -> (b: bool)
        ensures
            b == (self@.len() == 0),
    {
        self.head.is_none()
    }

    /// Releases every node with an explicit loop that repeatedly detaches the
    /// current head and steps to its successor, leaving the list empty.
    ///
    /// Dropping a tall ownership chain through the default recursive
    /// destructor takes one call-stack frame per node and can exhaust the
    /// stack; this loop frees the nodes one by one in constant stack space.
    /// The verifier does not accept custom `Drop` implementations, so
    /// callers drain a long list through this method before letting it go
    /// out of scope.
    pub fn clear(&mut self)
        ensures
            final(self).well_formed(),
            final(self)@ == Seq::<Seq<char>>::empty(),
    {
        let mut current = self.head.take();
        loop
            decreases opt_chain(current).len(),
        {
            match current {
                None => { break ; },
                Some(boxed) => {
                    let node = *boxed;
                    current = node.next;
                },
            }
        }
        self.size = 0;
    }

    /// Renders the contents in head-to-tail order as the elements joined by
    /// `", "` inside one pair of square brackets: an empty list renders as
    /// `[]`, and a list holding `"c"`, `"b"`, `"a"` renders as `[c, b, a]`.
    pub fn to_string(&self) -> (r: String)
        ensures
            r@ == rendered(self@),
    {
        let mut out = String::new();
        out.append("[");
        let mut current: Option<&Node> = match &self.head {
            None => None,
            Some(b) => Some(&**b),
        };
        proof {
            reveal_strlit("[");
            assert(out@ =~= seq!['[']);
            assert(opt_ref_chain(current) == self@);
        }
        loop
            invariant
                out@ + comma_joined(opt_ref_chain(current)) + seq![']'] == rendered(self@),
            ensures
                current is None,
                out@ + comma_joined(opt_ref_chain(current)) + seq![']'] == rendered(self@),
            decreases opt_ref_chain(current).len(),
        {
            match current {
                None => { break ; },
                Some(node) => {
                    let ghost before = opt_ref_chain(current);
                    out.append(node.data.as_str());
                    match &node.next {
                        None => {
                            current = None;
                        },
                        Some(b) => {
                            out.append(", ");
                            current = Some(&**b);
                        },
                    }
                    proof {
                        reveal_strlit(", ");
                        assert(", "@ =~= seq![',', ' ']);
                        lemma_comma_joined_step(node.data@, opt_ref_chain(current));
                        assert(before =~= seq![node.data@] + opt_ref_chain(current));
                    }
                },
            }
        }
        proof {
            assert(out@ + comma_joined(opt_ref_chain(current)) =~= out@);
        }
        out.append("]");
        proof {
            reveal_strlit("]");
            assert("]"@ =~= seq![']']);
            assert(out@ =~= rendered(self@));
        }
        out
    }

    /// Returns a reference to the head's contents, or `None` exactly when the
    /// list is empty; the next `pop` would return the same contents.
    pub fn peek(&self) -> (r: Option<&String>)
        ensures
            self@.len() == 0 ==> r is None,
            self@.len() > 0 ==> r is Some && r.unwrap()@ == self@[0],
    {
        match &self.head {
            None => None,
            Some(node) => Some(&node.data),
        }
    }

    /// Returns a read-only iterator over the contents from head to tail.
    pub fn iter(&self) -> (it: Iter<'_>)
        ensures
            it.elems() == self@,
    {
        Iter {
            next: match &self.head {
                None => None,
                Some(b) => Some(&**b),
            },
        }
    }
}

/// A read-only walk along the chain; each call of `next` yields a reference
/// to the contents of one node, from head to tail, then `None`.
pub struct Iter<'a> {
    next: Option<&'a Node>,
}

impl<'a> Iter<'a> {
    /// The contents not yet yielded, in the order they will be yielded.
    pub closed spec fn elems(self) -> Seq<Seq<char>> {
        opt_ref_chain(self.next)
    }

    /// Yields a reference to the next element's contents, or `None` exactly
    /// when the walk is over; afterwards the walk covers the rest.
    pub fn next(&mut self) -> (r: Option<&'a String>)
        ensures
            old(self).elems().len() == 0 ==> r is None && final(self).elems()
                == old(self).elems(),
            old(self).elems().len() > 0 ==> r is Some && r.unwrap()@ == old(self).elems()[0]
                && final(self).elems() == old(self).elems().drop_first(),
    {
        match self.next {
            None => None,
            Some(node) => {
                self.next = match &node.next {
                    None => None,
                    Some(b) => Some(&**b),
                };
                proof {
                    assert(final(self).elems() =~= old(self).elems().drop_first());
                }
                Some(&node.data)
            },
        }
    }
}

/// A mutating walk along the chain; each call of `next` yields exclusive
/// access to the contents of one node, from head to tail, then `None`.
pub struct IterMut<'a> {
    next: Option<&'a mut Node>,
}

impl<'a> IterMut<'a> {
    /// The borrowed node heading the part of the chain not yet visited, if
    /// any. It is exposed at the specification level only, so that contracts
    /// can relate the chain's eventual contents to the values written through
    /// the references this walk yields.
    pub closed spec fn remaining(self) -> Option<&'a mut Node> {
        self.next
    }

    /// The contents not yet yielded, in the order they will be yielded, as
    /// they stand now.
    pub closed spec fn elems(self) -> Seq<Seq<char>> {
        match self.next {
            None => Seq::<Seq<char>>::empty(),
            Some(n) => (*n).chain(),
        }
    }

    /// Yields exclusive access to the next element's contents, or `None`
    /// exactly when the walk is over. The chain headed by the node the walk
    /// just left will eventually hold whatever is written through the yielded
    /// reference, followed by the eventual contents of the rest of the walk.
    pub fn next(&mut self) -> (r: Option<&'a mut String>)
        ensures
            old(self).elems().len() == 0 ==> r is None && *final(self) == *old(self),
            old(self).elems().len() > 0 ==> {
                &&& r is Some
                &&& (*r.unwrap())@ == old(self).elems()[0]
                &&& final(self).elems() == old(self).elems().drop_first()
                &&& (*final(old(self).remaining().unwrap())).chain() == seq![
                    (*final(r.unwrap()))@,
                ] + (match final(self).remaining() {
                    None => Seq::<Seq<char>>::empty(),
                    Some(m) => (*final(m)).chain(),
                })
                &&& (final(self).remaining() is Some <==> old(self).elems().len() > 1)
            },
    {
        match self.next.take() {
            None => None,
            Some(node) => {
                self.next = match node.next.as_mut() {
                    None => None,
                    Some(b) => Some(&mut **b),
                };
                Some(&mut node.data)
            },
        }
    }
}

impl LinkedList {
    /// Returns a mutating iterator over the contents from head to tail. Once
    /// the walk and all access through its yielded references are over, the
    /// list holds the chain headed by the walk's first node, as eventually
    /// written.
    pub fn iter_mut(&mut self) -> (it: IterMut<'_>)
        requires
            old(self).well_formed(),
        ensures
            it.elems() == old(self)@,
            final(self)@ == (match it.remaining() {
                None => Seq::<Seq<char>>::empty(),
                Some(n) => (*final(n)).chain(),
            }),
            final(self)@.len() == old(self)@.len() ==> final(self).well_formed(),
    {
        IterMut {
            next: match self.head.as_mut() {
                None => None,
                Some(b) => Some(&mut **b),
            },
        }
    }

    /// Walks the list with a mutating iterator and appends `suffix` to every
    /// element in place: afterwards the list holds the same elements in the
    /// same order, each with `suffix` appended, and the chain itself is not
    /// restructured.
    pub fn append_each(&mut self, suffix: &str)
        requires
            old(self).well_formed(),
        ensures
            final(self).well_formed(),
            final(self)@ == old(self)@.map_values(|s: Seq<char>| s + suffix@),
    {
        let ghost orig: Seq<Seq<char>> = self@;
        let mut it = self.iter_mut();
        let ghost root = it.remaining();
        let ghost mut k: int = 0;
        proof {
            assert(it.elems() =~= orig.skip(k));
            assert(orig.take(k).map_values(|s: Seq<char>| s + suffix@) =~= Seq::<
                Seq<char>,
            >::empty());
        }
        loop
            invariant
                0 <= k <= orig.len(),
                it.elems() == orig.skip(k),
                (it.remaining() is Some <==> k < orig.len()),
                (match root {
                    None => Seq::<Seq<char>>::empty(),
                    Some(n) => (*final(n)).chain(),
                }) == orig.take(k).map_values(|s: Seq<char>| s + suffix@) + (
                match it.remaining() {
                    None => Seq::<Seq<char>>::empty(),
                    Some(m) => (*final(m)).chain(),
                }),
            ensures
                (match root {
                    None => Seq::<Seq<char>>::empty(),
                    Some(n) => (*final(n)).chain(),
                }) == orig.map_values(|s: Seq<char>| s + suffix@),
            decreases orig.len() - k,
        {
            let ghost prev = it.remaining();
            match it.next() {
                None => {
                    proof {
                        assert(orig.take(k) =~= orig);
                        assert(orig.take(k).map_values(|s: Seq<char>| s + suffix@) + Seq::<
                            Seq<char>,
                        >::empty() =~= orig.map_values(|s: Seq<char>| s + suffix@));
                    }
                    break ;
                },
                Some(s) => {
                    let ghost sv = (*s)@;
                    s.append(suffix);
                    proof {
                        assert(sv == orig[k]);
                        assert((*final(s))@ == orig[k] + suffix@);
                        let f = |s: Seq<char>| s + suffix@;
                        assert(orig.take(k + 1).map_values(f) =~= orig.take(k).map_values(f)
                            + seq![orig[k] + suffix@]);
                        let rest = match it.remaining() {
                            None => Seq::<Seq<char>>::empty(),
                            Some(m) => (*final(m)).chain(),
                        };
                        assert(orig.take(k).map_values(f) + (seq![orig[k] + suffix@] + rest)
                            =~= (orig.take(k).map_values(f) + seq![orig[k] + suffix@]) + rest);
                        assert(it.elems() =~= orig.skip(k + 1));
                        k = k + 1;
                    }
                },
            }
        }
        proof {
            assert(final(self)@.len() == old(self)@.len()) by {
                assert(final(self)@ == orig.map_values(|s: Seq<char>| s + suffix@));
            }
        }
    }
}

/// The contents of a list after pushing `vals` one at a time, first entry
/// first, onto a list holding `init`: each push puts its value in front, as
/// `push` ensures.
pub open spec fn pushed_all(init: Seq<Seq<char>>, vals: Seq<Seq<char>>) -> Seq<Seq<char>>
    decreases vals.len(),
{
    if vals.len() == 0 {
        init
    } else {
        pushed_all(seq![vals[0]] + init, vals.drop_first())
    }
}

/// Law: pushing a sequence of values leaves them in reverse order in front of
/// the prior contents, and grows the length by the number of pushed values.
/// Since `pop` detaches the first entry, popping then returns the pushed
/// values newest first, and `len` reports the count of pushes not yet popped.
pub proof fn lemma_pushed_all_reverses(init: Seq<Seq<char>>, vals: Seq<Seq<char>>)
    ensures
        pushed_all(init, vals) == vals.reverse() + init,
        pushed_all(init, vals).len() == init.len() + vals.len(),
    decreases vals.len(),
{
    if vals.len() == 0 {
        assert(vals.reverse() + init =~= init);
    } else {
        lemma_pushed_all_reverses(seq![vals[0]] + init, vals.drop_first());
        assert(vals.drop_first().reverse() + (seq![vals[0]] + init) =~= (
        vals.drop_first().reverse() + seq![vals[0]]) + init);
        assert(vals.reverse() =~= vals.drop_first().reverse() + seq![vals[0]]);
    }
}

/// Law: an empty list renders as exactly a bracket pair with nothing between.
pub proof fn lemma_rendered_empty()
    ensures
        rendered(Seq::<Seq<char>>::empty()) == seq!['[', ']'],
{
    assert(seq!['['] + comma_joined(Seq::<Seq<char>>::empty()) + seq![']'] =~= seq!['[', ']']);
}

} // verus!
