//! Resources: values that exist once in the whole world, one per type.

use crate::component::same_type;
use crate::component::AccessError;
use crate::component::Component;
use std::any::TypeId;
use std::cell::Ref;
use std::cell::RefMut;
use vstd::prelude::*;

verus! {

/// Why a resource could not be handed out.
#[derive(Debug, Clone, Copy, PartialEq, Eq, Structural)]
pub enum ResourcesError {
    /// No resource of that type is stored.
    NonexistentResourceError,
    /// The resource is there, but the access that was asked for was turned
    /// down.
    Access(AccessError),
}

/// Whether `borrowed` is what a shared borrow as a `T` of the resource
/// stored under `key` comes to, where `stored` is what the store holds:
/// `NonexistentResourceError` where nothing is stored under `key`; else what
/// the resource answers to the borrow, with a refusal given as `Access`.
pub open spec fn read_outcome<'a, T: 'static>(
    stored: Map<TypeId, Component>,
    key: TypeId,
    borrowed: Result<Ref<'a, T>, ResourcesError>,
) -> bool {
    if stored.contains_key(key) {
        match borrowed {
            Ok(value) => stored[key].read_as(Ok::<Ref<'a, T>, AccessError>(value)),
            Err(ResourcesError::Access(error)) => stored[key].read_as(
                Err::<Ref<'a, T>, AccessError>(error),
            ),
            Err(_) => false,
        }
    } else {
        borrowed == Err::<Ref<'a, T>, ResourcesError>(ResourcesError::NonexistentResourceError)
    }
}

/// Whether `borrowed` is what an exclusive borrow as a `T` of the resource
/// stored under `key` comes to, where `stored` is what the store holds:
/// `NonexistentResourceError` where nothing is stored under `key`; else what
/// the resource answers to the borrow, with a refusal given as `Access`.
pub open spec fn write_outcome<'a, T: 'static>(
    stored: Map<TypeId, Component>,
    key: TypeId,
    borrowed: Result<RefMut<'a, T>, ResourcesError>,
) -> bool {
    if stored.contains_key(key) {
        match borrowed {
            Ok(value) => stored[key].written_as(Ok::<RefMut<'a, T>, AccessError>(value)),
            Err(ResourcesError::Access(error)) => stored[key].written_as(
                Err::<RefMut<'a, T>, AccessError>(error),
            ),
            Err(_) => false,
        }
    } else {
        borrowed == Err::<RefMut<'a, T>, ResourcesError>(ResourcesError::NonexistentResourceError)
    }
}

/// Whether `deleted` and `after` are what taking the resource stored under
/// `key` out as a `T` makes of the store `before`. Where something is stored
/// under `key`, it leaves the store, and `deleted` is what the resource
/// answers to moving its value out, with a refusal given as `Access`; else
/// the store is as it was and the call fails with
/// `NonexistentResourceError`.
pub open spec fn delete_outcome<T: 'static>(
    before: Map<TypeId, Component>,
    after: Map<TypeId, Component>,
    key: TypeId,
    deleted: Result<T, ResourcesError>,
) -> bool {
    if before.contains_key(key) {
        &&& after == before.remove(key)
        &&& match deleted {
            Ok(value) => before[key].moved_as(Ok::<T, AccessError>(value)),
            Err(ResourcesError::Access(error)) => before[key].moved_as(
                Err::<T, AccessError>(error),
            ),
            Err(_) => false,
        }
    } else {
        &&& after == before
        &&& deleted == Err::<T, ResourcesError>(ResourcesError::NonexistentResourceError)
    }
}

/// Stores at most one value per type, apart from all entities.
///
/// As plain values the store is a map from type identifiers to the values
/// stored under them.
#[derive(Debug)]
pub struct Resources {
    values: Vec<Component>,
}

impl View for Resources {
    type V = Map<TypeId, Component>;

    closed spec fn view(&self) -> Map<TypeId, Component> {
        Map::new(
            |key: TypeId| self.holds(key),
            |key: TypeId| self.values@[self.place_of(key)],
        )
    }
}

impl Default for Resources {
    /// A store without resources.
    fn default() -> (resources: Resources)
        ensures
            resources.wf(),
            resources@ == Map::<TypeId, Component>::empty(),
    {
        Resources::new()
    }
}

impl Resources {
    /// Whether a value is stored under `key`.
    spec fn holds(&self, key: TypeId) -> bool {
        exists|i: int| 0 <= i < self.values@.len() && (#[trigger] self.values@[i]).type_key() == key
    }

    /// Where the value stored under `key` sits.
    spec fn place_of(&self, key: TypeId) -> int {
        choose|i: int| 0 <= i < self.values@.len() && (#[trigger] self.values@[i]).type_key() == key
    }

    /// The store is well formed: no two values are stored under one type.
    pub closed spec fn wf(&self) -> bool {
        forall|i: int, j: int|
            0 <= i < j < self.values@.len() ==> (#[trigger] self.values@[i]).type_key() != (
            #[trigger] self.values@[j]).type_key()
    }

    /// The value at place `i` is the one stored under its key.
    proof fn lemma_place(&self, i: int)
        requires
            self.wf(),
            0 <= i < self.values@.len(),
        ensures
            self@.contains_key(self.values@[i].type_key()),
            self@[self.values@[i].type_key()] == self.values@[i],
            self.place_of(self.values@[i].type_key()) == i,
    {
        let key = self.values@[i].type_key();
        let j = self.place_of(key);
        if i < j {
            assert(self.values@[i].type_key() != self.values@[j].type_key());
        } else if j < i {
            assert(self.values@[j].type_key() != self.values@[i].type_key());
        }
    }

    /// A store without resources.
    pub fn new() -> (resources: Resources)
        ensures
            resources.wf(),
            resources@ == Map::<TypeId, Component>::empty(),
    {
        let resources = Resources { values: Vec::new() };
        assert(resources@ =~= Map::<TypeId, Component>::empty());
        resources
    }

    /// Where the value stored under `key` sits, if there is one.
    fn find(&self, key: &TypeId) -> (found: Option<usize>)
        requires
            self.wf(),
        ensures
            found is Some <==> self@.contains_key(*key),
            found is Some ==> found->0 < self.values@.len() && self.values@[found->0 as int]
                == self@[*key] && self.values@[found->0 as int].type_key() == *key,
    {
        let n: usize = self.values.len();
        let mut i: usize = 0;
        while i < n
            invariant
                self.wf(),
                n == self.values@.len(),
                i <= n,
                forall|j: int| 0 <= j < i ==> (#[trigger] self.values@[j]).type_key() != *key,
            decreases n - i,
        {
            let here = self.values[i].key();
            if same_type(&here, key) {
                proof {
                    self.lemma_place(i as int);
                }
                return Some(i);
            }
            i += 1;
        }
        None
    }

    /// Stores `resource` under its type, in place of the value that was
    /// stored under that type, if there was one.
    pub fn add(&mut self, resource: Component)
        requires
            old(self).wf(),
        ensures
            final(self).wf(),
            final(self)@ == old(self)@.insert(resource.type_key(), resource),
    {
        let key = resource.key();
        match self.find(&key) {
            Some(i) => {
                self.values[i] = resource;
                proof {
                    assert forall|a: int, b: int| 0 <= a < b < self.values@.len() implies (
                    #[trigger] self.values@[a]).type_key() != (
                    #[trigger] self.values@[b]).type_key() by {
                        assert(old(self).values@[a].type_key() != old(self).values@[b].type_key());
                    }
                }
            },
            None => {
                self.values.push(resource);
                proof {
                    assert forall|a: int, b: int| 0 <= a < b < self.values@.len() implies (
                    #[trigger] self.values@[a]).type_key() != (
                    #[trigger] self.values@[b]).type_key() by {
                        if b < old(self).values@.len() {
                            assert(old(self).values@[a].type_key() != old(
                                self,
                            ).values@[b].type_key());
                        } else {
                            assert(old(self).values@[a].type_key() != key);
                        }
                    }
                }
            },
        }
        proof {
            let after = old(self)@.insert(key, resource);
            assert forall|other: TypeId| self@.contains_key(other) <==> after.contains_key(
                other,
            ) by {
                if self@.contains_key(other) && other != key {
                    let i = self.place_of(other);
                    assert(old(self).values@[i].type_key() == other);
                }
                if old(self)@.contains_key(other) && other != key {
                    let i = old(self).place_of(other);
                    assert(self.values@[i].type_key() == other);
                }
                if other == key {
                    let i = if old(self)@.contains_key(key) {
                        old(self).place_of(key)
                    } else {
                        old(self).values@.len() as int
                    };
                    if old(self)@.contains_key(key) {
                        old(self).lemma_place(old(self).place_of(key));
                    }
                    assert(self.values@[i].type_key() == key);
                }
            }
            assert forall|other: TypeId| self@.contains_key(other) implies self@[other]
                == after[other] by {
                let i = self.place_of(other);
                self.lemma_place(i);
                if other != key {
                    assert(old(self).values@[i].type_key() == other);
                    old(self).lemma_place(i);
                } else {
                    if old(self)@.contains_key(key) {
                        old(self).lemma_place(old(self).place_of(key));
                        let j = old(self).place_of(key);
                        assert(self.values@[j].type_key() == key);
                        self.lemma_place(j);
                    } else {
                        let j = old(self).values@.len() as int;
                        assert(self.values@[j].type_key() == key);
                        self.lemma_place(j);
                    }
                }
            }
            assert(self@ =~= after);
        }
    }

    /// The value stored under `key`, if there is one.
    pub fn get(&self, key: &TypeId) -> (found: Option<&Component>)
        requires
            self.wf(),
        ensures
            match found {
                Some(resource) => {
                    &&& self@.contains_key(*key)
                    &&& self@[*key] == *resource
                    &&& resource.type_key() == *key
                },
                None => !self@.contains_key(*key),
            },
    {
        match self.find(key) {
            Some(i) => Some(&self.values[i]),
            None => None,
        }
    }

    /// Borrows the resource of type `T` for reading.
    ///
    /// The resource is looked up under the identifier that `TypeId::of`
    /// gives for `T`; the call fails with `NonexistentResourceError` if
    /// nothing is stored under it. The resource that is found is then asked
    /// for the borrow; its refusal is given as `Access`.
    pub fn get_ref<T: 'static>(&self) -> (borrowed: Result<Ref<'_, T>, ResourcesError>)
        requires
            self.wf(),
        ensures
            exists|key: TypeId|
                #[trigger] call_ensures(TypeId::of::<T>, (), key) && read_outcome(
                    self@,
                    key,
                    borrowed,
                ),
    {
        let key = TypeId::of::<T>();
        let borrowed = match self.get(&key) {
            Some(resource) => match resource.get_ref::<T>() {
                Ok(value) => Ok(value),
                Err(error) => Err(ResourcesError::Access(error)),
            },
            None => Err(ResourcesError::NonexistentResourceError),
        };
        assert(read_outcome(self@, key, borrowed));
        borrowed
    }

    /// Borrows the resource of type `T` for writing.
    ///
    /// The resource is looked up under the identifier that `TypeId::of`
    /// gives for `T`; the call fails with `NonexistentResourceError` if
    /// nothing is stored under it. The resource that is found is then asked
    /// for the borrow; its refusal is given as `Access`.
    pub fn get_mut<T: 'static>(&self) -> (borrowed: Result<RefMut<'_, T>, ResourcesError>)
        requires
            self.wf(),
        ensures
            exists|key: TypeId|
                #[trigger] call_ensures(TypeId::of::<T>, (), key) && write_outcome(
                    self@,
                    key,
                    borrowed,
                ),
    {
        let key = TypeId::of::<T>();
        let borrowed = match self.get(&key) {
            Some(resource) => match resource.get_mut::<T>() {
                Ok(value) => Ok(value),
                Err(error) => Err(ResourcesError::Access(error)),
            },
            None => Err(ResourcesError::NonexistentResourceError),
        };
        assert(write_outcome(self@, key, borrowed));
        borrowed
    }

    /// Takes the value stored under `key` out of the store and hands it
    /// back, if there is one.
    pub fn remove(&mut self, key: &TypeId) -> (removed: Option<Component>)
        requires
            old(self).wf(),
        ensures
            final(self).wf(),
            final(self)@ == old(self)@.remove(*key),
            removed == if old(self)@.contains_key(*key) {
                Some(old(self)@[*key])
            } else {
                None
            },
            removed is Some ==> removed->0.type_key() == *key,
    {
        let i: usize = match self.find(key) {
            Some(i) => i,
            None => {
                assert(self@ =~= old(self)@.remove(*key));
                return None;
            },
        };
        let resource = self.values.remove(i);
        proof {
            let after = old(self)@.remove(*key);
            assert forall|a: int, b: int| 0 <= a < b < self.values@.len() implies (
            #[trigger] self.values@[a]).type_key() != (#[trigger] self.values@[b]).type_key() by {
                let a0 = if a < i { a } else { a + 1 };
                let b0 = if b < i { b } else { b + 1 };
                assert(old(self).values@[a0].type_key() != old(self).values@[b0].type_key());
            }
            assert forall|other: TypeId| self@.contains_key(other) <==> after.contains_key(
                other,
            ) by {
                if self@.contains_key(other) {
                    let a = self.place_of(other);
                    let a0 = if a < i { a } else { a + 1 };
                    assert(old(self).values@[a0].type_key() == other);
                    if other == *key {
                        old(self).lemma_place(a0);
                        old(self).lemma_place(i as int);
                    }
                }
                if after.contains_key(other) {
                    let a0 = old(self).place_of(other);
                    let a = if a0 < i { a0 } else { a0 - 1 };
                    assert(self.values@[a].type_key() == other);
                }
            }
            assert forall|other: TypeId| self@.contains_key(other) implies self@[other]
                == after[other] by {
                let a = self.place_of(other);
                let a0 = if a < i { a } else { a + 1 };
                self.lemma_place(a);
                old(self).lemma_place(a0);
            }
            assert(self@ =~= after);
        }
        Some(resource)
    }

    /// Takes the resource of type `T` out of the store and hands its value
    /// back.
    ///
    /// The resource is looked up under the identifier that `TypeId::of`
    /// gives for `T`; the call fails with `NonexistentResourceError` if
    /// nothing is stored under it, and leaves the store as it is. The
    /// resource that is found leaves the store and is asked for its value;
    /// its refusal is given as `Access`.
    pub fn delete<T: 'static>(&mut self) -> (deleted: Result<T, ResourcesError>)
        requires
            old(self).wf(),
        ensures
            final(self).wf(),
            exists|key: TypeId|
                #[trigger] call_ensures(TypeId::of::<T>, (), key) && delete_outcome(
                    old(self)@,
                    final(self)@,
                    key,
                    deleted,
                ),
    {
        let key = TypeId::of::<T>();
        let deleted = match self.remove(&key) {
            Some(resource) => match resource.into_inner::<T>() {
                Ok(value) => Ok(value),
                Err(error) => Err(ResourcesError::Access(error)),
            },
            None => {
                assert(old(self)@.remove(key) =~= old(self)@);
                Err(ResourcesError::NonexistentResourceError)
            },
        };
        assert(delete_outcome(old(self)@, self@, key, deleted));
        deleted
    }
}

} // verus!
