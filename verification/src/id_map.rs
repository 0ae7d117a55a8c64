//! Generic identifier/arena substrate.
//!
//! An [`Id<T>`] is an opaque, type-tagged non-negative integer: two
//! identifiers are equal iff their integer values are equal, and the type tag
//! only prevents passing an identifier meant for one entity kind where
//! another is expected. [`IdMapBuilder`] assigns identifiers sequentially
//! starting at 0; [`IdMap`] is the finalized, lookup-only form. Identifiers
//! are never reused within one arena's lifetime, and no deletion exists.

use core::marker::PhantomData;
use vstd::prelude::*;

verus! {

/// A type-tagged identifier, carrying only its integer value.
///
/// The field is public so that equality of the raw values and equality of
/// identifiers are interchangeable in specifications.
#[derive(Debug)]
#[verifier::reject_recursive_types(T)]
pub struct Id<T>(pub usize, pub PhantomData<T>);

impl<T> Id<T> {
    pub fn new(id: usize) -> (r: Self)
        ensures
            r.0 == id,
    {
        Id(id, PhantomData)
    }

    pub fn raw(self) -> (r: usize)
        ensures
            r == self.0,
    {
        self.0
    }
}

impl<T> Clone for Id<T> {
    fn clone(&self) -> (r: Self)
        ensures
            r == *self,
    {
        Id(self.0, PhantomData)
    }
}

impl<T> Copy for Id<T> {

}

impl<T> PartialEq for Id<T> {
    fn eq(&self, other: &Self) -> (r: bool)
        ensures
            r == (self.0 == other.0),
    {
        self.0 == other.0
    }
}

impl<T> Eq for Id<T> {

}

impl<T> vstd::std_specs::cmp::PartialEqSpecImpl for Id<T> {
    open spec fn obeys_eq_spec() -> bool {
        true
    }

    open spec fn eq_spec(&self, other: &Self) -> bool {
        self.0 == other.0
    }
}

/// Append-only arena builder: `add` assigns identifiers 0, 1, 2, ... in
/// insertion order and never fails; `build` finalizes into an [`IdMap`].
pub struct IdMapBuilder<T> {
    items: Vec<T>,
}

/// Finalized, immutable arena: O(1) lookup by identifier, no insertion.
pub struct IdMap<T> {
    items: Vec<T>,
}

impl<T> View for IdMapBuilder<T> {
    type V = Seq<T>;

    closed spec fn view(&self) -> Seq<T> {
        self.items@
    }
}

impl<T> View for IdMap<T> {
    type V = Seq<T>;

    closed spec fn view(&self) -> Seq<T> {
        self.items@
    }
}

impl<T> IdMapBuilder<T> {
    pub fn new() -> (r: Self)
        ensures
            r@ =~= Seq::<T>::empty(),
    {
        IdMapBuilder { items: Vec::new() }
    }

    /// Identifiers are assigned in insertion order starting at 0: the
    /// returned identifier always equals the number of entities added before.
    pub fn add(&mut self, t: T) -> (id: Id<T>)
        ensures
            id.0 == old(self)@.len(),
            final(self)@ =~= old(self)@.push(t),
    {
        let id = Id::new(self.items.len());
        self.items.push(t);
        id
    }

    pub fn len(&self) -> (n: usize)
        ensures
            n == self@.len(),
    {
        self.items.len()
    }

    /// Finalizes the builder; every identifier handed out by `add` resolves
    /// in the result, and no further insertion is possible.
    pub fn build(self) -> (r: IdMap<T>)
        ensures
            r@ =~= self@,
    {
        IdMap { items: self.items }
    }
}

impl<T> IdMap<T> {
    /// Whether an identifier resolves in this arena.
    pub open spec fn contains_id(self, id: Id<T>) -> bool {
        id.0 < self@.len()
    }

    pub fn len(&self) -> (n: usize)
        ensures
            n == self@.len(),
    {
        self.items.len()
    }

    /// O(1) lookup: `None` exactly when the identifier does not resolve,
    /// never a default value.
    pub fn get(&self, id: Id<T>) -> (r: Option<&T>)
        ensures
            match r {
                Some(t) => self.contains_id(id) && *t == self@[id.0 as int],
                None => !self.contains_id(id),
            },
    {
        if id.0 < self.items.len() {
            Some(&self.items[id.0])
        } else {
            None
        }
    }

    /// Replaces the entity behind an identifier; the arena is otherwise
    /// unchanged. Returns whether the identifier resolved.
    pub fn set(&mut self, id: Id<T>, t: T) -> (r: bool)
        ensures
            r == old(self).contains_id(id),
            r ==> final(self)@ =~= old(self)@.update(id.0 as int, t),
            !r ==> final(self)@ =~= old(self)@,
    {
        if id.0 < self.items.len() {
            self.items.set(id.0, t);
            true
        } else {
            false
        }
    }

    /// Swaps the entity behind an identifier for another, returning the
    /// previous one; the arena is otherwise unchanged.
    pub fn replace(&mut self, id: Id<T>, t: T) -> (r: T)
        requires
            old(self).contains_id(id),
        ensures
            r == old(self)@[id.0 as int],
            final(self)@ =~= old(self)@.update(id.0 as int, t),
    {
        let prev = self.items.remove(id.0);
        self.items.insert(id.0, t);
        proof {
            assert(self.items@ =~= old(self).items@.update(id.0 as int, t));
        }
        prev
    }

    /// Every identifier of the arena, in ascending order of the raw value.
    /// The arena itself promises no iteration order; callers needing one
    /// must sort explicitly.
    pub fn ids(&self) -> (r: Vec<Id<T>>)
        ensures
            r@.len() == self@.len(),
            forall|i: int| 0 <= i < r@.len() ==> (#[trigger] r@[i]).0 == i,
    {
        let mut r: Vec<Id<T>> = Vec::new();
        let n = self.items.len();
        for k in 0..n
            invariant
                r@.len() == k,
                forall|i: int| 0 <= i < k ==> (#[trigger] r@[i]).0 == i,
        {
            r.push(Id::new(k));
        }
        r
    }
}

} // verus!
