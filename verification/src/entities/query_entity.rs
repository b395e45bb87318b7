//! Entity cursors: one matched entity, and look-ups of its components on
//! demand.

use crate::bits::bit_at;
use crate::component::AccessError;
use crate::component::Component;
use crate::entities::query::QueryError;
use crate::entities::Entities;
use crate::table::Table;
use std::any::TypeId;
use std::cell::Ref;
use std::cell::RefMut;
use vstd::prelude::*;

verus! {

/// Whether `borrowed` is what a shared borrow as a `T` comes to after the
/// look-up `found`: the error of the look-up where that failed; else what
/// the component that was found answers to the borrow, with a refusal
/// given as `Access`.
pub open spec fn read_outcome<'a, T: 'static>(
    found: Result<Component, QueryError>,
    borrowed: Result<Ref<'a, T>, QueryError>,
) -> bool {
    match found {
        Ok(component) => match borrowed {
            Ok(value) => component.read_as(Ok::<Ref<'a, T>, AccessError>(value)),
            Err(QueryError::Access(error)) => component.read_as(
                Err::<Ref<'a, T>, AccessError>(error),
            ),
            Err(_) => false,
        },
        Err(error) => borrowed == Err::<Ref<'a, T>, QueryError>(error),
    }
}

/// Whether `borrowed` is what an exclusive borrow as a `T` comes to after
/// the look-up `found`: the error of the look-up where that failed; else
/// what the component that was found answers to the borrow, with a refusal
/// given as `Access`.
pub open spec fn write_outcome<'a, T: 'static>(
    found: Result<Component, QueryError>,
    borrowed: Result<RefMut<'a, T>, QueryError>,
) -> bool {
    match found {
        Ok(component) => match borrowed {
            Ok(value) => component.written_as(Ok::<RefMut<'a, T>, AccessError>(value)),
            Err(QueryError::Access(error)) => component.written_as(
                Err::<RefMut<'a, T>, AccessError>(error),
            ),
            Err(_) => false,
        },
        Err(error) => borrowed == Err::<RefMut<'a, T>, QueryError>(error),
    }
}

/// An entity cursor as plain values.
pub struct QueryEntityView {
    /// The entity's slot.
    pub id: usize,
    /// The store that the entity lives in.
    pub table: Table,
}

/// One entity of a store, as a query found it.
#[derive(Debug)]
pub struct QueryEntity<'a> {
    /// The entity's slot.
    pub id: usize,
    /// The store that the entity lives in.
    pub entities: &'a Entities,
}

impl<'a> View for QueryEntity<'a> {
    type V = QueryEntityView;

    open spec fn view(&self) -> QueryEntityView {
        QueryEntityView { id: self.id, table: self.entities@ }
    }
}

impl<'a> QueryEntity<'a> {
    /// The cursor for the entity in slot `index` of `entities`.
    pub fn new(index: usize, entities: &'a Entities) -> (entity: QueryEntity<'a>)
        ensures
            entity@ == (QueryEntityView { id: index, table: entities@ }),
    {
        QueryEntity { id: index, entities }
    }

    /// The entity's component of type `key`, or the reason there is none:
    /// the type is not registered, the slot does not exist, or the entity
    /// does not carry such a component.
    pub fn component(&self, key: &TypeId) -> (found: Result<&'a Component, QueryError>)
        requires
            self@.table.wf(),
        ensures
            match found {
                Ok(component) => self@.table.lookup(self@.id as int, *key) == Ok::<
                    Component,
                    QueryError,
                >(*component),
                Err(error) => self@.table.lookup(self@.id as int, *key) == Err::<
                    Component,
                    QueryError,
                >(error),
            },
    {
        let k: usize = match self.entities.find(key) {
            Some(k) => k,
            None => {
                return Err(QueryError::UnregisteredComponentError);
            },
        };
        if self.id >= self.entities.entity_count() {
            return Err(QueryError::OutOfBoundsIdError);
        }
        proof {
            self@.table.lemma_registered(*key);
        }
        let bitmask: u128 = bit_at(k);
        if self.entities.mask_at(self.id) & bitmask == 0 {
            return Err(QueryError::NonexistentComponentDataError);
        }
        match self.entities.cell_at(k, self.id) {
            Some(component) => Ok(component),
            None => Err(QueryError::NonexistentComponentDataError),
        }
    }

    /// Borrows the entity's component of type `T` for reading.
    ///
    /// The component is looked up as [`QueryEntity::component`] does, under
    /// the identifier that `TypeId::of` gives for `T`, and the call fails as
    /// the look-up does. The component that is found is then asked for the
    /// borrow; its refusal is given as `Access`.
    pub fn get_component<T: 'static>(&self) -> (borrowed: Result<Ref<'a, T>, QueryError>)
        requires
            self@.table.wf(),
        ensures
            exists|key: TypeId|
                #[trigger] call_ensures(TypeId::of::<T>, (), key) && read_outcome(
                    self@.table.lookup(self@.id as int, key),
                    borrowed,
                ),
    {
        let key = TypeId::of::<T>();
        let borrowed = match self.component(&key) {
            Ok(component) => match component.get_ref::<T>() {
                Ok(value) => Ok(value),
                Err(error) => Err(QueryError::Access(error)),
            },
            Err(error) => Err(error),
        };
        proof {
            assert(read_outcome(self@.table.lookup(self@.id as int, key), borrowed));
        }
        borrowed
    }

    /// Borrows the entity's component of type `T` for writing.
    ///
    /// The component is looked up as [`QueryEntity::component`] does, under
    /// the identifier that `TypeId::of` gives for `T`, and the call fails as
    /// the look-up does. The component that is found is then asked for the
    /// borrow; its refusal is given as `Access`.
    pub fn get_component_mut<T: 'static>(&self) -> (borrowed: Result<RefMut<'a, T>, QueryError>)
        requires
            self@.table.wf(),
        ensures
            exists|key: TypeId|
                #[trigger] call_ensures(TypeId::of::<T>, (), key) && write_outcome(
                    self@.table.lookup(self@.id as int, key),
                    borrowed,
                ),
    {
        let key = TypeId::of::<T>();
        let borrowed = match self.component(&key) {
            Ok(component) => match component.get_mut::<T>() {
                Ok(value) => Ok(value),
                Err(error) => Err(QueryError::Access(error)),
            },
            Err(error) => Err(error),
        };
        proof {
            assert(write_outcome(self@.table.lookup(self@.id as int, key), borrowed));
        }
        borrowed
    }
}

} // verus!
