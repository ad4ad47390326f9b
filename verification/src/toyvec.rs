//! A growable array with explicit capacity bookkeeping: a fresh one holds
//! nothing, pushing past the capacity doubles it, and elements come back out
//! by index, by popping, or through the two iterators.

use vstd::prelude::*;

verus! {

/// A growable array of `T` with a tracked capacity.
#[derive(Debug)]
pub struct ToyVec<T> {
    elements: Vec<T>,
    cap: usize,
}

impl<T> View for ToyVec<T> {
    type V = Seq<T>;

    closed spec fn view(&self) -> Seq<T> {
        self.elements@
    }
}

impl<T> ToyVec<T> {
    /// The tracked capacity.
    pub closed spec fn spec_capacity(&self) -> usize {
        self.cap
    }

    /// The elements never outnumber the capacity.
    pub open spec fn wf(&self) -> bool {
        self@.len() <= self.spec_capacity()
    }

    /// An empty array of capacity zero.
    pub fn new() -> (r: Self)
        ensures
            r@ == Seq::<T>::empty(),
            r.spec_capacity() == 0,
            r.wf(),
    {
        Self::with_capacity(0)
    }

    /// An empty array with the given capacity.
    pub fn with_capacity(capacity: usize) -> (r: Self)
        ensures
            r@ == Seq::<T>::empty(),
            r.spec_capacity() == capacity,
            r.wf(),
    {
        Self { elements: Self::allocate_in_heap(capacity), cap: capacity }
    }

    /// Storage for `size` elements.
    fn allocate_in_heap(size: usize) -> (r: Vec<T>)
        ensures
            r@ == Seq::<T>::empty(),
    {
        Vec::with_capacity(size)
    }

    /// How many elements are held.
    pub fn len(&self) -> (r: usize)
        ensures
            r == self@.len(),
    {
        self.elements.len()
    }

    /// Whether no element is held.
    pub fn is_empty(&self) -> (r: bool)
        ensures
            r == (self@.len() == 0),
    {
        self.elements.is_empty()
    }

    /// How many elements fit before the storage grows.
    pub fn capacity(&self) -> (r: usize)
        ensures
            r == self.spec_capacity(),
    {
        self.cap
    }

    /// Appends one element. A full array first doubles its capacity (a fresh
    /// one grows to capacity one).
    pub fn push(&mut self, element: T)
        requires
            old(self).wf(),
            old(self).spec_capacity() <= usize::MAX / 2,
        ensures
            final(self)@ == old(self)@.push(element),
            final(self).wf(),
            final(self).spec_capacity() == if old(self)@.len() < old(self).spec_capacity() {
                old(self).spec_capacity()
            } else if old(self).spec_capacity() == 0 {
                1usize
            } else {
                (2 * old(self).spec_capacity()) as usize
            },
    {
        if self.len() == self.capacity() {
            self.grow();
        }
        self.elements.push(element);
    }

    /// Doubles the capacity; a capacity of zero becomes one. The elements
    /// stay as they are.
    fn grow(&mut self)
        requires
            old(self).spec_capacity() <= usize::MAX / 2,
        ensures
            final(self)@ == old(self)@,
            final(self).spec_capacity() == if old(self).spec_capacity() == 0 {
                1usize
            } else {
                (2 * old(self).spec_capacity()) as usize
            },
    {
        if self.cap == 0 {
            self.cap = 1;
        } else {
            self.cap = self.cap * 2;
        }
    }

    /// The element at `index`, or `None` past the end.
    pub fn get(&self, index: usize) -> (r: Option<&T>)
        ensures
            match r {
                Some(v) => index < self@.len() && *v == self@[index as int],
                None => index >= self@.len(),
            },
    {
        if index < self.len() {
            Some(&self.elements[index])
        } else {
            None
        }
    }

    /// The element at `index`, or `default` past the end.
    pub fn get_or<'a>(&'a self, index: usize, default: &'a T) -> (r: &'a T)
        ensures
            *r == if index < self@.len() {
                self@[index as int]
            } else {
                *default
            },
    {
        match self.get(index) {
            Some(v) => v,
            None => default,
        }
    }

    /// Removes and returns the last element, or `None` when empty.
    pub fn pop(&mut self) -> (r: Option<T>)
        ensures
            final(self).spec_capacity() == old(self).spec_capacity(),
            old(self)@.len() == 0 ==> r is None && final(self)@ == old(self)@,
            old(self)@.len() > 0 ==> r == Some(old(self)@.last()) && final(self)@ == old(
                self,
            )@.drop_last(),
    {
        self.elements.pop()
    }

    /// An iterator over references to the elements, front to back.
    pub fn iter<'vec>(&'vec self) -> (r: Iter<'vec, T>)
        ensures
            r.wf(),
            r.pending() == self@,
    {
        Iter { elements: &self.elements, pos: 0 }
    }

    /// An iterator that takes the elements out, front to back.
    pub fn into_iter(self) -> (r: IntoIter<T>)
        ensures
            r.pending() == self@,
    {
        IntoIter { elements: self.elements }
    }
}

impl<T> Default for ToyVec<T> {
    fn default() -> (r: Self)
        ensures
            r@ == Seq::<T>::empty(),
            r.spec_capacity() == 0,
    {
        Self::new()
    }
}

/// A borrowing iterator over a `ToyVec`.
pub struct Iter<'vec, T> {
    elements: &'vec Vec<T>,
    pos: usize,
}

impl<'vec, T> Iter<'vec, T> {
    /// The elements not yet handed out, in order.
    pub closed spec fn pending(&self) -> Seq<T> {
        self.elements@.subrange(self.pos as int, self.elements@.len() as int)
    }

    /// The cursor never passes the end.
    pub closed spec fn wf(&self) -> bool {
        self.pos <= self.elements@.len()
    }

    /// A reference to the next element, or `None` once all were handed out.
    pub fn next(&mut self) -> (r: Option<&'vec T>)
        requires
            old(self).wf(),
        ensures
            final(self).wf(),
            old(self).pending().len() == 0 ==> r is None && final(self).pending() == old(
                self,
            ).pending(),
            old(self).pending().len() > 0 ==> (r matches Some(v) && *v == old(
                self,
            ).pending().first()) && final(self).pending() == old(self).pending().drop_first(),
    {
        if self.pos >= self.elements.len() {
            None
        } else {
            let res = Some(&self.elements[self.pos]);
            self.pos = self.pos + 1;
            proof {
                assert(final(self).pending() =~= old(self).pending().drop_first());
            }
            res
        }
    }
}

/// An owning iterator over a `ToyVec`.
pub struct IntoIter<T> {
    elements: Vec<T>,
}

impl<T> IntoIter<T> {
    /// The elements not yet taken out, in order.
    pub closed spec fn pending(&self) -> Seq<T> {
        self.elements@
    }

    /// The next element, or `None` once all were taken.
    pub fn next(&mut self) -> (r: Option<T>)
        ensures
            old(self).pending().len() == 0 ==> r is None && final(self).pending() == old(
                self,
            ).pending(),
            old(self).pending().len() > 0 ==> (r matches Some(v) && v == old(
                self,
            ).pending().first()) && final(self).pending() == old(self).pending().drop_first(),
    {
        if self.elements.len() == 0 {
            None
        } else {
            let v = self.elements.remove(0);
            proof {
                assert(self.elements@ =~= old(self).pending().drop_first());
            }
            Some(v)
        }
    }
}

} // verus!
