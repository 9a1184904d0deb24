//! A sequence that is added to at its end and forgets its beginning.
//!
//! A trail knows how long it is and what it holds from a certain place on.
//! What lies in front of that place is gone from memory; contracts still
//! speak of the whole sequence.

use vstd::prelude::*;

verus! {

/// A sequence of which only the end is held in memory.
pub struct Trail<T> {
    dropped: usize,
    kept: Vec<T>,
    past: Ghost<Seq<T>>,
}

impl<T> View for Trail<T> {
    type V = Seq<T>;

    closed spec fn view(&self) -> Seq<T> {
        self.past@ + self.kept@
    }
}

impl<T> Trail<T> {
    /// The place from which on the elements are still held.
    pub closed spec fn start(&self) -> nat {
        self.dropped as nat
    }

    /// What holds of every trail that this module hands out.
    pub closed spec fn wf(&self) -> bool {
        self.past@.len() == self.dropped && self.dropped + self.kept@.len() <= usize::MAX
    }

    /// The held part begins inside the trail, and the machine can count to the
    /// trail's length.
    pub proof fn start_is_inside(&self)
        requires
            self.wf(),
        ensures
            self.start() <= self@.len() <= usize::MAX,
    {
    }

    /// An empty trail.
    pub fn new() -> (trail: Trail<T>)
        ensures
            trail.wf(),
            trail@ == Seq::<T>::empty(),
            trail.start() == 0,
    {
        let trail = Trail { dropped: 0, kept: Vec::new(), past: Ghost(Seq::empty()) };
        assert(trail@ =~= Seq::<T>::empty());
        trail
    }

    /// Number of elements, forgotten ones included.
    pub fn len(&self) -> (len: usize)
        requires
            self.wf(),
        ensures
            len == self@.len(),
    {
        self.dropped + self.kept.len()
    }

    /// The place from which on the elements are still held.
    pub fn first(&self) -> (first: usize)
        requires
            self.wf(),
        ensures
            first == self.start(),
            first <= self@.len(),
    {
        self.dropped
    }

    /// The element at `index`, which must not be forgotten.
    pub fn get(&self, index: usize) -> (element: &T)
        requires
            self.wf(),
            self.start() <= index < self@.len(),
        ensures
            *element == self@[index as int],
    {
        &self.kept[index - self.dropped]
    }

    /// Adds an element at the end.
    pub fn push(&mut self, element: T)
        requires
            old(self).wf(),
            old(self)@.len() < usize::MAX,
        ensures
            final(self).wf(),
            final(self)@ == old(self)@.push(element),
            final(self).start() == old(self).start(),
    {
        self.kept.push(element);
        assert(self@ =~= old(self)@.push(element));
    }

    /// Replaces the element at `index`, which must not be forgotten.
    pub fn set(&mut self, index: usize, element: T)
        requires
            old(self).wf(),
            old(self).start() <= index < old(self)@.len(),
        ensures
            final(self).wf(),
            final(self)@ == old(self)@.update(index as int, element),
            final(self).start() == old(self).start(),
    {
        let at = index - self.dropped;
        self.kept[at] = element;
        assert(self@ =~= old(self)@.update(index as int, element));
    }

    /// Forgets every element in front of `upto`. The sequence stays what it
    /// is; only `start` moves.
    pub fn forget(&mut self, upto: usize)
        requires
            old(self).wf(),
            old(self).start() <= upto <= old(self)@.len(),
        ensures
            final(self).wf(),
            final(self)@ == old(self)@,
            final(self).start() == upto,
    {
        while self.dropped < upto
            invariant
                self.wf(),
                self@ == old(self)@,
                self.dropped <= upto <= self@.len(),
            decreases upto - self.dropped,
        {
            let ghost before = self@;
            let gone = self.kept.remove(0);
            self.past = Ghost(self.past@.push(gone));
            self.dropped = self.dropped + 1;
            assert(self@ =~= before);
        }
    }
}

} // verus!
