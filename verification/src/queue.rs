//! A first-in-first-out queue over two growable buffers.
//!
//! New elements are appended to the `younger` buffer. Elements leave from the
//! tail of the `older` buffer. When `older` runs dry, the whole of `younger` is
//! handed over to it and turned around, so that the element that has waited
//! longest sits at the tail again. Front to back, a queue therefore holds
//! `older` read backwards, followed by `younger`.

use vstd::prelude::*;
use vstd::seq_lib::lemma_multiset_commutative;

verus! {

/// `<[T]>::reverse` of std: turns the order of the slice's elements around, in
/// place. The contract says that the slice afterwards holds the elements it
/// held before, last to first.
pub assume_specification<E>[ <[E]>::reverse ](slice: &mut [E])
    ensures
        final(slice)@ == old(slice)@.reverse(),
;

/// The two buffers of a queue as mathematical sequences.
pub struct Buffers<T> {
    /// The buffer that elements leave from, the next one to leave last.
    pub older: Seq<T>,
    /// The buffer that elements arrive in, the latest arrival last.
    pub younger: Seq<T>,
}

impl<T> Buffers<T> {
    /// Two buffers that hold nothing.
    pub open spec fn empty() -> Self {
        Buffers { older: Seq::empty(), younger: Seq::empty() }
    }

    /// The elements from the front of the queue to its back.
    pub open spec fn content(self) -> Seq<T> {
        self.older.reverse() + self.younger
    }

    /// Neither buffer holds an element.
    pub open spec fn is_empty(self) -> bool {
        self.older.len() == 0 && self.younger.len() == 0
    }

    /// The buffers after `t` has arrived.
    pub open spec fn pushed(self, t: T) -> Self {
        Buffers { older: self.older, younger: self.younger.push(t) }
    }

    /// How many elements change buffer when an element is asked for: all of
    /// `younger` if `older` has run dry, none otherwise.
    pub open spec fn transfer_size(self) -> nat {
        if self.older.len() == 0 {
            self.younger.len()
        } else {
            0
        }
    }

    /// The buffers made ready for an element to leave: if `older` has run dry,
    /// it takes over `younger` turned around, and `younger` is left empty.
    pub open spec fn settled(self) -> Self {
        if self.older.len() == 0 {
            Buffers { older: self.younger.reverse(), younger: Seq::empty() }
        } else {
            self
        }
    }

    /// The element that leaves next, if there is one.
    pub open spec fn front(self) -> Option<T> {
        if self.is_empty() {
            None
        } else {
            Some(self.settled().older.last())
        }
    }

    /// The buffers after the front element has left; unchanged if there was
    /// none.
    pub open spec fn popped(self) -> Self {
        if self.is_empty() {
            self
        } else {
            Buffers { older: self.settled().older.drop_last(), younger: self.settled().younger }
        }
    }

    /// The queue is empty exactly when neither buffer holds an element.
    pub proof fn lemma_empty_content(self)
        ensures
            self.is_empty() <==> self.content().len() == 0,
            self.is_empty() ==> self.content() == Seq::<T>::empty(),
    {
        if self.is_empty() {
            assert(self.content() =~= Seq::<T>::empty());
        }
    }

    /// The queue holds each element of the two buffers once, and nothing
    /// else.
    pub proof fn lemma_content_holds_each_once(self)
        ensures
            self.content().to_multiset() == self.older.to_multiset().add(
                self.younger.to_multiset(),
            ),
    {
        self.older.lemma_reverse_to_multiset();
        lemma_multiset_commutative(self.older.reverse(), self.younger);
    }

    /// An arrival goes to the back of the queue.
    pub proof fn lemma_pushed_content(self, t: T)
        ensures
            self.pushed(t).content() == self.content().push(t),
    {
        assert(self.pushed(t).content() =~= self.content().push(t));
    }

    /// Handing `younger` over to `older` moves `transfer_size` elements from
    /// the one to the other, and leaves the order of the queue as it was.
    pub proof fn lemma_settled_content(self)
        ensures
            self.settled().content() == self.content(),
            self.settled().older.len() == self.older.len() + self.transfer_size(),
            self.settled().younger.len() + self.transfer_size() == self.younger.len(),
            !self.is_empty() ==> self.settled().older.len() > 0,
    {
        assert(self.settled().content() =~= self.content());
    }

    /// The element that leaves is the first of the queue, and the others keep
    /// their order.
    pub proof fn lemma_popped_content(self)
        ensures
            self.is_empty() ==> self.front() is None && self.popped() == self,
            !self.is_empty() ==> self.content().len() > 0
                && self.front() == Some(self.content().first())
                && self.popped().content() == self.content().drop_first(),
    {
        if !self.is_empty() {
            self.lemma_settled_content();
            let s = self.settled();
            assert(s.content().first() == s.older.last());
            assert(self.popped().content() =~= s.content().drop_first());
        }
    }
}

/// A first-in-first-out queue of `T`.
pub struct Queue<T> {
    older: Vec<T>,
    younger: Vec<T>,
}

impl<T> View for Queue<T> {
    type V = Seq<T>;

    /// The queued elements, front to back.
    open spec fn view(&self) -> Seq<T> {
        self.buffers().content()
    }
}

impl<T> Queue<T> {
    /// What the two buffers hold.
    pub closed spec fn buffers(&self) -> Buffers<T> {
        Buffers { older: self.older@, younger: self.younger@ }
    }

    /// A queue that holds nothing.
    pub fn new() -> (q: Self)
        ensures
            q.buffers() == Buffers::<T>::empty(),
            q@ == Seq::<T>::empty(),
    {
        let q = Queue { older: Vec::new(), younger: Vec::new() };
        proof {
            q.buffers().lemma_empty_content();
        }
        q
    }

    /// Puts `t` at the back of the queue.
    pub fn push(&mut self, t: T)
        ensures
            final(self).buffers() == old(self).buffers().pushed(t),
            final(self)@ == old(self)@.push(t),
    {
        proof {
            self.buffers().lemma_pushed_content(t);
        }
        self.younger.push(t);
    }

    /// Takes the element at the front of the queue, or returns `None` if the
    /// queue holds nothing. The element comes from the tail of `older`; if
    /// `older` has run dry, it first takes over all of `younger`, turned
    /// around.
    pub fn pop(&mut self) -> (r: Option<T>)
        ensures
            r == old(self).buffers().front(),
            final(self).buffers() == old(self).buffers().popped(),
            old(self)@.len() == 0 ==> r is None && final(self)@ == old(self)@,
            old(self)@.len() > 0 ==> r == Some(old(self)@.first())
                && final(self)@ == old(self)@.drop_first(),
    {
        proof {
            self.buffers().lemma_empty_content();
            self.buffers().lemma_popped_content();
        }
        if self.older.is_empty() {
            if self.younger.is_empty() {
                return None;
            }
            std::mem::swap(&mut self.older, &mut self.younger);
            self.older.reverse();
        }
        let r = self.older.pop();
        proof {
            let after = old(self).buffers().popped();
            assert(self.buffers().older =~= after.older);
            assert(self.buffers().younger =~= after.younger);
        }
        r
    }

    /// Whether the queue holds nothing.
    pub fn is_empty(&self) -> (r: bool)
        ensures
            r == self.buffers().is_empty(),
            r == (self@.len() == 0),
    {
        proof {
            self.buffers().lemma_empty_content();
        }
        self.older.is_empty() && self.younger.is_empty()
    }

    /// Gives up the queue and hands out its two buffers as they are: `older`
    /// first, which holds the front of the queue at its tail, then `younger`.
    pub fn split(self) -> (r: (Vec<T>, Vec<T>))
        ensures
            r.0@ == self.buffers().older,
            r.1@ == self.buffers().younger,
            r.0@.reverse() + r.1@ == self@,
            r.0@.to_multiset().add(r.1@.to_multiset()) == self@.to_multiset(),
    {
        proof {
            self.buffers().lemma_content_holds_each_once();
        }
        (self.older, self.younger)
    }
}

} // verus!
