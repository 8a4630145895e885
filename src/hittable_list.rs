//! The objects of a scene, kept in the order they were added.
use vstd::prelude::*;

verus! {

/// An ordered list of scene objects. The objects are usually shared handles,
/// so that one object can sit in several lists; the list is scanned from the
/// first object to the last when a ray is traced.
pub struct HittableList<T> {
    v: Vec<T>,
}

impl<T> View for HittableList<T> {
    type V = Seq<T>;

    closed spec fn view(&self) -> Seq<T> {
        self.v@
    }
}

impl<T> HittableList<T> {
    /// An empty list.
    pub fn new() -> (l: HittableList<T>)
        ensures
            l@ == Seq::<T>::empty(),
    {
        HittableList { v: Vec::new() }
    }

    /// Puts `object` at the end of the list.
    pub fn add(&mut self, object: T)
        ensures
            final(self)@ == old(self)@.push(object),
    {
        self.v.push(object);
    }

    /// Removes every object.
    pub fn clear(&mut self)
        ensures
            final(self)@ == Seq::<T>::empty(),
    {
        self.v.clear();
    }

    /// The number of objects.
    pub fn len(&self) -> (n: usize)
        ensures
            n == self@.len(),
    {
        self.v.len()
    }

    /// The objects, first added first.
    pub fn objects(&self) -> (s: &[T])
        ensures
            s@ == self@,
    {
        self.v.as_slice()
    }
}

} // verus!
