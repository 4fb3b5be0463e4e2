//! A map from object path ids to values, held in a vector indexed by id.

use crate::object_path::ObjectPathId;
use vstd::prelude::*;

verus! {

/// A map from object path id to values of type T, using a vector
#[derive(Debug)]
pub struct ObjectMap<T> {
    values: Vec<Option<T>>,
}

impl<T> View for ObjectMap<T> {
    type V = Map<nat, T>;

    /// The ids that have a value, each with its value.
    closed spec fn view(&self) -> Map<nat, T> {
        Map::new(
            |i: nat| i < self.values@.len() && self.values@[i as int] is Some,
            |i: nat| self.values@[i as int]->0,
        )
    }
}

impl<T> ObjectMap<T> {
    pub fn new() -> (r: ObjectMap<T>)
        ensures
            r@ == Map::<nat, T>::empty(),
    {
        let r = ObjectMap { values: Vec::new() };
        assert(r@ =~= Map::<nat, T>::empty());
        r
    }

    /// Set a new value or overwrite an existing value
    pub fn set(&mut self, object: ObjectPathId, value: T)
        requires
            object.0 < usize::MAX,
        ensures
            final(self)@ == old(self)@.insert(object.0 as nat, value),
    {
        let index = object.as_usize();
        if index >= self.values.len() {
            let padding_length = index - self.values.len();
            self.values.reserve(1 + padding_length);
            while self.values.len() < index
                invariant
                    old(self).values@.len() <= self.values@.len() <= index,
                    self.values@.take(old(self).values@.len() as int) == old(self).values@,
                    forall|i: int|
                        old(self).values@.len() <= i < self.values@.len()
                            ==> self.values@[i] is None,
                decreases index - self.values@.len(),
            {
                self.values.push(None);
                assert(self.values@.take(old(self).values@.len() as int)
                    =~= old(self).values@);
            }
            self.values.push(Some(value));
            assert(self.values@.take(old(self).values@.len() as int) =~= old(self).values@);
            assert forall|i: int| 0 <= i < old(self).values@.len() implies self.values@[i]
                == old(self).values@[i] by {
                assert(self.values@.take(old(self).values@.len() as int)[i] == self.values@[i]);
            }
        } else {
            self.values[index] = Some(value);
        }
        assert(self@ =~= old(self)@.insert(object.0 as nat, value));
    }

    /// Get a reference to the value associated with an object if set
    pub fn get(&self, object: ObjectPathId) -> (r: Option<&T>)
        ensures
            r == (if self@.contains_key(object.0 as nat) {
                Some(&self@[object.0 as nat])
            } else {
                None
            }),
    {
        let index = object.as_usize();
        if index < self.values.len() {
            self.values[index].as_ref()
        } else {
            None
        }
    }

    /// Get a mutable reference to the value associated with an object if set.
    /// What is written through the reference becomes the object's value; no
    /// other object is touched.
    pub fn get_mut(&mut self, object: ObjectPathId) -> (r: Option<&mut T>)
        ensures
            match r {
                Some(value) => {
                    &&& old(self)@.contains_key(object.0 as nat)
                    &&& *value == old(self)@[object.0 as nat]
                    &&& final(self)@.dom() == old(self)@.dom()
                    &&& final(self)@[object.0 as nat] == *final(value)
                    &&& forall|other: nat|
                        other != object.0 && old(self)@.contains_key(other)
                            ==> final(self)@[other] == old(self)@[other]
                },
                None => !old(self)@.contains_key(object.0 as nat) && final(self)@ == old(self)@,
            },
    {
        let index = object.as_usize();
        if index < self.values.len() {
            self.values[index].as_mut()
        } else {
            None
        }
    }

    /// Clear all values without changing the vector capacity
    pub fn clear(&mut self)
        ensures
            final(self)@ == Map::<nat, T>::empty(),
    {
        self.values.clear();
        assert(self@ =~= Map::<nat, T>::empty());
    }
}

} // verus!
