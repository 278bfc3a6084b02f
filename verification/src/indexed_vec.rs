//! A vector whose indices are branded by a marker type, so that indices
//! of different vectors cannot get mixed up.

use vstd::prelude::*;
use core::marker::PhantomData;

verus! {

/// An index into an `IndexedVec` with the same marker.
pub struct Idx<Marker> {
    pub index: usize,
    pub _phantom: PhantomData<Marker>,
}

impl<Marker> Idx<Marker> {
    pub fn new(index: usize) -> (r: Idx<Marker>)
        ensures
            r.index == index,
    {
        Idx { index, _phantom: PhantomData }
    }
}

impl<Marker> Clone for Idx<Marker> {
    fn clone(&self) -> (r: Self)
        ensures
            r.index == self.index,
    {
        Idx { index: self.index, _phantom: PhantomData }
    }
}

impl<Marker> Copy for Idx<Marker> {

}

impl<Marker> PartialEq for Idx<Marker> {
    fn eq(&self, other: &Self) -> (r: bool) {
        self.index == other.index
    }
}

impl<Marker> vstd::std_specs::cmp::PartialEqSpecImpl for Idx<Marker> {
    open spec fn obeys_eq_spec() -> bool {
        true
    }

    open spec fn eq_spec(&self, other: &Self) -> bool {
        self.index == other.index
    }
}

impl<Marker> Eq for Idx<Marker> {

}

/// A Vec struct whose indices are marked in some way.
/// This ensures that indices of several vector types cannot get mixed up.
pub struct IndexedVec<Marker, T> {
    pub data: Vec<T>,
    pub _phantom: PhantomData<Marker>,
}

impl<Marker, T> IndexedVec<Marker, T> {
    pub fn new() -> (r: IndexedVec<Marker, T>)
        ensures
            r.data@.len() == 0,
    {
        IndexedVec { data: Vec::new(), _phantom: PhantomData }
    }

    /// Swaps two elements.
    /// If a equals b, it's guaranteed that elements won't change value.
    pub fn swap(&mut self, a: Idx<Marker>, b: Idx<Marker>)
        requires
            a.index < old(self).data@.len(),
            b.index < old(self).data@.len(),
        ensures
            final(self).data@ == old(self).data@.update(a.index as int, old(self).data@[b.index
                as int]).update(b.index as int, old(self).data@[a.index as int]),
    {
        let ghost orig = self.data@;
        if a.index == b.index {
            proof {
                assert(orig.update(a.index as int, orig[b.index as int]).update(b.index as int,
                    orig[a.index as int]) =~= orig);
            }
            return ;
        }
        let lo: usize = if a.index < b.index {
            a.index
        } else {
            b.index
        };
        let hi: usize = if a.index < b.index {
            b.index
        } else {
            a.index
        };
        let vhi = self.data.remove(hi);
        let vlo = self.data.remove(lo);
        self.data.insert(lo, vhi);
        self.data.insert(hi, vlo);
        proof {
            assert(self.data@ =~= orig.update(a.index as int, orig[b.index as int]).update(
                b.index as int, orig[a.index as int]));
        }
    }

    /// Appends an element and returns its index.
    pub fn push(&mut self, data: T) -> (r: Idx<Marker>)
        ensures
            final(self).data@ == old(self).data@.push(data),
            r.index == old(self).data@.len(),
    {
        let idx = Idx::new(self.data.len());
        self.data.push(data);
        idx
    }

    /// Whether the index points at an element.
    pub fn contains_key(&self, idx: Idx<Marker>) -> (r: bool)
        ensures
            r == (idx.index < self.data@.len()),
    {
        idx.index < self.data.len()
    }

    pub fn len(&self) -> (r: usize)
        ensures
            r == self.data@.len(),
    {
        self.data.len()
    }

    /// The stored elements, in index order.
    pub fn iter(&self) -> (r: &Vec<T>)
        ensures
            r@ == self.data@,
    {
        &self.data
    }

    /// The element at an index.
    pub fn get(&self, idx: Idx<Marker>) -> (r: &T)
        requires
            idx.index < self.data@.len(),
        ensures
            *r == self.data@[idx.index as int],
    {
        &self.data[idx.index]
    }

    /// Removes and returns the last element.
    pub fn pop(&mut self) -> (r: Option<T>)
        ensures
            old(self).data@.len() == 0 ==> r is None && final(self).data@ == old(self).data@,
            old(self).data@.len() > 0 ==> r == Some(old(self).data@.last()) && final(self).data@
                == old(self).data@.drop_last(),
    {
        if self.data.len() > 0 {
            let v = self.data.pop().unwrap();
            Some(v)
        } else {
            None
        }
    }
}

} // verus!
