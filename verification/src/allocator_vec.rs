//! A growable vector whose capacity follows an explicit doubling policy, so
//! that the bookkeeping footprint it contributes to a memory snapshot is a
//! deterministic function of the operations performed on it.

use vstd::prelude::*;

verus! {

/// Capacity of a fresh vector: a zero-sized element type needs no storage,
/// so its capacity is fixed at the maximum representable word; any other
/// element type starts with none.
pub open spec fn initial_capacity<T>() -> usize {
    if core::mem::size_of::<T>() == 0 {
        usize::MAX
    } else {
        0usize
    }
}

/// Capacity after growing a full vector: a fresh vector gets one slot, a full
/// one doubles.
pub open spec fn grown_capacity(cap: usize) -> usize {
    if cap == 0 {
        1usize
    } else {
        (2 * cap) as usize
    }
}

/// A growable vector with an explicitly tracked capacity.
///
/// The capacity never shrinks and grows only when an element is added to a
/// full vector, so snapshots that report the table's own footprint see a
/// value determined by the history of operations alone.
#[derive(Debug)]
pub struct SpecialVec<T> {
    data: Vec<T>,
    cap: usize,
}

impl<T> View for SpecialVec<T> {
    type V = Seq<T>;

    closed spec fn view(&self) -> Seq<T> {
        self.data@
    }
}

impl<T> SpecialVec<T> {
    #[verifier::type_invariant]
    spec fn capacity_invariant(self) -> bool {
        self.data@.len() <= self.cap
    }

    /// The tracked capacity.
    pub closed spec fn spec_cap(&self) -> usize {
        self.cap
    }

    #[verifier::when_used_as_spec(spec_cap)]
    pub fn cap(&self) -> (c: usize)
        ensures
            c == self.spec_cap(),
            self@.len() <= c,
    {
        proof {
            use_type_invariant(self);
        }
        self.cap
    }

    /// An empty vector. A sized element type starts with no capacity; a
    /// zero-sized one needs no storage, so its capacity is fixed at the
    /// maximum representable word and never moves.
    pub fn new() -> (v: Self)
        ensures
            v@ == Seq::<T>::empty(),
            v.spec_cap() == initial_capacity::<T>(),
    {
        let cap: usize = if core::mem::size_of::<T>() == 0 {
            usize::MAX
        } else {
            0
        };
        SpecialVec { data: Vec::new(), cap }
    }

    /// Number of elements currently stored; never more than the capacity.
    pub fn len(&self) -> (l: usize)
        ensures
            l == self@.len(),
            l <= self.spec_cap(),
    {
        proof {
            use_type_invariant(self);
        }
        self.data.len()
    }

    pub fn is_empty(&self) -> (b: bool)
        ensures
            b == (self@.len() == 0),
    {
        self.data.len() == 0
    }

    /// Appends an element, doubling the capacity when the vector is full.
    pub fn push(&mut self, elem: T)
        requires
            old(self)@.len() < usize::MAX / 2,
        ensures
            final(self)@ == old(self)@.push(elem),
            final(self).spec_cap() == if old(self)@.len() < old(self).spec_cap() {
                old(self).spec_cap()
            } else {
                grown_capacity(old(self).spec_cap())
            },
    {
        proof {
            use_type_invariant(&*self);
        }
        if self.data.len() == self.cap {
            self.cap = if self.cap == 0 {
                1
            } else {
                2 * self.cap
            };
        }
        let mut data: Vec<T> = Vec::new();
        core::mem::swap(&mut self.data, &mut data);
        data.push(elem);
        core::mem::swap(&mut self.data, &mut data);
    }

    /// Removes and returns the last element; the capacity is kept.
    pub fn pop(&mut self) -> (r: Option<T>)
        ensures
            final(self).spec_cap() == old(self).spec_cap(),
            old(self)@.len() == 0 ==> r is None && final(self)@ == old(self)@,
            old(self)@.len() > 0 ==> r == Some(old(self)@.last()) && final(self)@ == old(self)@.drop_last(),
    {
        proof {
            use_type_invariant(&*self);
        }
        let mut data: Vec<T> = Vec::new();
        core::mem::swap(&mut self.data, &mut data);
        let r = data.pop();
        core::mem::swap(&mut self.data, &mut data);
        r
    }

    /// Reads the element at `index`.
    pub fn get(&self, index: usize) -> (r: &T)
        requires
            index < self@.len(),
        ensures
            *r == self@[index as int],
    {
        &self.data[index]
    }

    /// Overwrites the element at `index`.
    pub fn set(&mut self, index: usize, elem: T)
        requires
            index < old(self)@.len(),
        ensures
            final(self)@ == old(self)@.update(index as int, elem),
            final(self).spec_cap() == old(self).spec_cap(),
    {
        proof {
            use_type_invariant(&*self);
        }
        let mut data: Vec<T> = Vec::new();
        core::mem::swap(&mut self.data, &mut data);
        data[index] = elem;
        core::mem::swap(&mut self.data, &mut data);
    }

    /// Inserts an element at `index`, shifting the rest towards the back and
    /// growing the capacity as `push` does.
    pub fn insert(&mut self, index: usize, elem: T)
        requires
            index <= old(self)@.len(),
            old(self)@.len() < usize::MAX / 2,
        ensures
            final(self)@ == old(self)@.insert(index as int, elem),
            final(self).spec_cap() == if old(self)@.len() < old(self).spec_cap() {
                old(self).spec_cap()
            } else {
                grown_capacity(old(self).spec_cap())
            },
    {
        proof {
            use_type_invariant(&*self);
        }
        if self.data.len() == self.cap {
            self.cap = if self.cap == 0 {
                1
            } else {
                2 * self.cap
            };
        }
        let mut data: Vec<T> = Vec::new();
        core::mem::swap(&mut self.data, &mut data);
        data.insert(index, elem);
        core::mem::swap(&mut self.data, &mut data);
    }

    /// Removes and returns the element at `index`, shifting the rest towards
    /// the front; the capacity is kept.
    pub fn remove(&mut self, index: usize) -> (r: T)
        requires
            index < old(self)@.len(),
        ensures
            r == old(self)@[index as int],
            final(self)@ == old(self)@.remove(index as int),
            final(self).spec_cap() == old(self).spec_cap(),
    {
        proof {
            use_type_invariant(&*self);
        }
        let mut data: Vec<T> = Vec::new();
        core::mem::swap(&mut self.data, &mut data);
        let r = data.remove(index);
        core::mem::swap(&mut self.data, &mut data);
        r
    }

    /// Consumes the vector, yielding its elements front to back.
    pub fn into_iter(self) -> (it: IntoIter<T>)
        ensures
            it@ == self@,
    {
        let SpecialVec { data, cap: _ } = self;
        IntoIter { data }
    }

    /// Empties the vector, yielding the removed elements front to back; the
    /// vector keeps its capacity.
    pub fn drain(&mut self) -> (it: Drain<T>)
        ensures
            it@ == old(self)@,
            final(self)@ == Seq::<T>::empty(),
            final(self).spec_cap() == old(self).spec_cap(),
    {
        proof {
            use_type_invariant(&*self);
        }
        let mut data: Vec<T> = Vec::new();
        core::mem::swap(&mut self.data, &mut data);
        Drain { data }
    }
}

/// An owning iterator over the elements of a [`SpecialVec`]; its view is the
/// sequence of elements not yet taken.
pub struct IntoIter<T> {
    data: Vec<T>,
}

impl<T> View for IntoIter<T> {
    type V = Seq<T>;

    closed spec fn view(&self) -> Seq<T> {
        self.data@
    }
}

impl<T> IntoIter<T> {
    /// Takes the next element from the front.
    pub fn next(&mut self) -> (r: Option<T>)
        ensures
            old(self)@.len() == 0 ==> r is None && final(self)@ == old(self)@,
            old(self)@.len() > 0 ==> r == Some(old(self)@.first()) && final(self)@ == old(self)@.drop_first(),
    {
        if self.data.len() > 0 {
            let r = self.data.remove(0);
            proof {
                assert(self.data@ =~= old(self)@.drop_first());
            }
            Some(r)
        } else {
            None
        }
    }

    /// Takes the next element from the back.
    pub fn next_back(&mut self) -> (r: Option<T>)
        ensures
            old(self)@.len() == 0 ==> r is None && final(self)@ == old(self)@,
            old(self)@.len() > 0 ==> r == Some(old(self)@.last()) && final(self)@ == old(self)@.drop_last(),
    {
        self.data.pop()
    }
}

/// Elements removed from a [`SpecialVec`] by [`SpecialVec::drain`]; its view
/// is the sequence of elements not yet taken.
pub struct Drain<T> {
    data: Vec<T>,
}

impl<T> View for Drain<T> {
    type V = Seq<T>;

    closed spec fn view(&self) -> Seq<T> {
        self.data@
    }
}

impl<T> Drain<T> {
    /// Takes the next element from the front.
    pub fn next(&mut self) -> (r: Option<T>)
        ensures
            old(self)@.len() == 0 ==> r is None && final(self)@ == old(self)@,
            old(self)@.len() > 0 ==> r == Some(old(self)@.first()) && final(self)@ == old(self)@.drop_first(),
    {
        if self.data.len() > 0 {
            let r = self.data.remove(0);
            proof {
                assert(self.data@ =~= old(self)@.drop_first());
            }
            Some(r)
        } else {
            None
        }
    }

    /// Takes the next element from the back.
    pub fn next_back(&mut self) -> (r: Option<T>)
        ensures
            old(self)@.len() == 0 ==> r is None && final(self)@ == old(self)@,
            old(self)@.len() > 0 ==> r == Some(old(self)@.last()) && final(self)@ == old(self)@.drop_last(),
    {
        self.data.pop()
    }
}

} // verus!
