//! The component store: a registry of component types, one column of cells
//! per type, and one presence mask per entity slot.

pub mod auto_query;
pub mod fn_query;
pub mod query;
pub mod query_entity;

pub use self::fn_query::FnQuery;
pub use self::query::Query;
pub use self::query_entity::QueryEntity;

use crate::bits::bit;
use crate::bits::bit_at;
use crate::bits::has_bit;
use crate::bits::MASK_BITS;
use crate::component::same_type;
use crate::component::Component;
use crate::table::first_free;
use crate::table::lemma_first_free;
use crate::table::Table;
use std::any::TypeId;
use vstd::prelude::*;

verus! {

/// Why an operation on the store was turned down.
#[derive(Debug, Clone, Copy, PartialEq, Eq, Structural)]
pub enum ComponentError {
    /// A component was to be added to an entity slot that does not exist.
    NonexistentEntity,
    /// The component's type is not registered and could not be registered on
    /// the fly: every bit of the mask has been handed out.
    AutomaticRegistrationError,
    /// The component type is not registered.
    UnregisteredComponentError,
    /// The entity slot is out of range: slots run from 0 to `expected`, and
    /// `found` was given.
    IndexOutOfBoundsError { expected: usize, found: usize },
}

/// Stores entities and their components.
///
/// An entity is a slot number. Each component type that the store knows
/// owns one bit of a 128-bit mask and one column with a cell per slot; an
/// entity's mask has a type's bit set when the entity carries a component
/// of that type. At most 128 types can ever be registered.
#[derive(Debug)]
pub struct Entities {
    types: Vec<Option<TypeId>>,
    columns: Vec<Vec<Option<Component>>>,
    masks: Vec<u128>,
    insert_cursor: usize,
}

impl View for Entities {
    type V = Table;

    closed spec fn view(&self) -> Table {
        Table {
            types: self.types@,
            columns: Seq::new(self.columns@.len(), |k: int| self.columns@[k]@),
            masks: self.masks@,
            cursor: self.insert_cursor as nat,
        }
    }
}

impl Default for Entities {
    /// A store with no types and no entities.
    fn default() -> (entities: Entities)
        ensures
            entities@ == Table::empty(),
            entities.wf(),
    {
        let entities = Entities {
            types: Vec::new(),
            columns: Vec::new(),
            masks: Vec::new(),
            insert_cursor: 0,
        };
        assert(entities@.types =~= Table::empty().types);
        assert(entities@.columns =~= Table::empty().columns);
        assert(entities@.masks =~= Table::empty().masks);
        entities
    }
}

impl Entities {
    /// The store is well formed: see [`Table::wf`].
    pub open spec fn wf(&self) -> bool {
        self@.wf()
    }

    /// The bit position of `key`, if it is registered.
    pub(crate) fn find(&self, key: &TypeId) -> (found: Option<usize>)
        requires
            self.wf(),
        ensures
            found is Some <==> self@.registered(*key),
            found is Some ==> found->0 == self@.index_of(*key) && found->0 < MASK_BITS,
    {
        let n: usize = self.types.len();
        let mut k: usize = 0;
        while k < n
            invariant
                self.wf(),
                n == self.types@.len(),
                k <= n,
                forall|j: int| 0 <= j < k ==> self.types@[j] != Some(*key),
            decreases n - k,
        {
            let here = match &self.types[k] {
                Some(registered) => same_type(registered, key),
                None => false,
            };
            if here {
                proof {
                    self@.lemma_index_of(*key, k as int);
                }
                return Some(k);
            }
            k += 1;
        }
        None
    }

    /// The mask of the entity in `slot`.
    pub(crate) fn mask_at(&self, slot: usize) -> (mask: u128)
        requires
            slot < self@.masks.len(),
        ensures
            mask == self@.masks[slot as int],
    {
        self.masks[slot]
    }

    /// The cell of the entity in `slot` in the column with bit `k`.
    pub(crate) fn cell_at(&self, k: usize, slot: usize) -> (cell: &Option<Component>)
        requires
            self.wf(),
            k < self@.types.len(),
            self@.types[k as int] is Some,
            slot < self@.masks.len(),
        ensures
            *cell == self@.columns[k as int][slot as int],
    {
        assert(self@.columns[k as int].len() == self@.masks.len());
        &self.columns[k][slot]
    }

    /// The number of entity slots.
    pub fn entity_count(&self) -> (count: usize)
        ensures
            count == self@.masks.len(),
    {
        self.masks.len()
    }

    /// The slot that `insert` writes to.
    pub fn cursor(&self) -> (slot: usize)
        ensures
            slot == self@.cursor,
    {
        self.insert_cursor
    }

    /// The presence mask of the entity in `index`, or `None` if there is no
    /// such slot.
    pub fn entity_mask(&self, index: usize) -> (mask: Option<u128>)
        ensures
            mask == if index < self@.masks.len() {
                Some(self@.masks[index as int])
            } else {
                None
            },
    {
        if index < self.masks.len() {
            Some(self.masks[index])
        } else {
            None
        }
    }

    /// The mask of the component type `typeid`: its one bit. `None` if the
    /// type is not registered.
    pub fn get_bitmask(&self, typeid: &TypeId) -> (mask: Option<u128>)
        requires
            self.wf(),
        ensures
            mask == if self@.registered(*typeid) {
                Some(self@.mask_of(*typeid))
            } else {
                None
            },
            mask is Some ==> mask->0 != 0,
    {
        match self.find(typeid) {
            Some(k) => Some(bit_at(k)),
            None => None,
        }
    }

    /// The length of the column of `key`: one cell per entity slot. `None`
    /// if the type is not registered.
    pub fn column_len(&self, key: &TypeId) -> (len: Option<usize>)
        requires
            self.wf(),
        ensures
            len == if self@.registered(*key) {
                Some(self@.masks.len() as usize)
            } else {
                None
            },
    {
        match self.find(key) {
            Some(k) => {
                proof {
                    self@.lemma_registered(*key);
                    assert(self@.columns[k as int].len() == self@.masks.len());
                }
                Some(self.columns[k].len())
            },
            None => None,
        }
    }

    /// The cell of the entity in `index` in the column of `key`, whether or
    /// not the entity carries the component: a deleted component stays in
    /// its cell until it is overwritten. `None` where the cell is empty, the
    /// type is not registered or there is no such slot.
    pub fn cell(&self, key: &TypeId, index: usize) -> (found: Option<&Component>)
        requires
            self.wf(),
        ensures
            match found {
                Some(component) => self@.cell(index as int, *key) == Some(*component),
                None => self@.cell(index as int, *key) is None,
            },
    {
        match self.find(key) {
            Some(k) => {
                if index < self.masks.len() {
                    proof {
                        self@.lemma_registered(*key);
                    }
                    self.cell_at(k, index).as_ref()
                } else {
                    None
                }
            },
            None => None,
        }
    }

    /// The component of type `key` that the entity in `index` carries, if
    /// any.
    pub fn component(&self, key: &TypeId, index: usize) -> (found: Option<&Component>)
        requires
            self.wf(),
        ensures
            match found {
                Some(component) => self@.component(index as int, *key) == Some(*component),
                None => self@.component(index as int, *key) is None,
            },
    {
        match self.find(key) {
            Some(k) => {
                if index < self.masks.len() && self.masks[index] & bit_at(k) != 0 {
                    proof {
                        assert(has_bit(self@.masks[index as int], k as int));
                        assert(self@.columns[k as int][index as int] is Some);
                    }
                    self.columns[k][index].as_ref()
                } else {
                    None
                }
            },
            None => None,
        }
    }

    /// Registers the component type `key`: hands it the next bit and gives
    /// it a column with an empty cell for every entity slot there is.
    ///
    /// Does nothing if the type is registered already, so that its bit never
    /// changes, and nothing if all 128 bits have been handed out:
    /// [`Entities::get_bitmask`] tells afterwards whether the type is
    /// registered.
    pub fn register_component(&mut self, key: TypeId)
        requires
            old(self).wf(),
        ensures
            final(self).wf(),
            final(self)@ == old(self)@.register(key),
    {
        if self.find(&key).is_some() || self.types.len() >= MASK_BITS {
            return;
        }
        let n: usize = self.masks.len();
        let mut column: Vec<Option<Component>> = Vec::new();
        let mut e: usize = 0;
        while e < n
            invariant
                e <= n,
                column@.len() == e,
                forall|i: int| 0 <= i < e ==> column@[i] is None,
            decreases n - e,
        {
            column.push(None);
            e += 1;
        }
        self.types.push(Some(key));
        self.columns.push(column);
        proof {
            let before = old(self)@;
            let after = before.register(key);
            before.lemma_register(key);
            assert(self@.types =~= after.types);
            assert(self@.columns =~~= after.columns);
            assert(self@.masks =~= after.masks);
        }
    }

    /// Makes room for a new entity and points the insert cursor at it.
    ///
    /// The first slot whose mask is empty is taken again if there is one;
    /// else a new slot is added at the end, with an empty cell in every
    /// column. The calls to [`Entities::insert`] that follow write to this
    /// slot.
    pub fn create_entity(&mut self) -> (entities: &mut Self)
        requires
            old(self).wf(),
        ensures
            entities.wf(),
            entities@ == old(self)@.spawn(),
            *final(self) == *final(entities),
    {
        let n: usize = self.masks.len();
        let mut slot: usize = 0;
        while slot < n && self.masks[slot] != 0
            invariant
                n == self.masks@.len(),
                slot <= n,
                forall|i: int| 0 <= i < slot ==> self.masks@[i] != 0,
                *self == *old(self),
            decreases n - slot,
        {
            slot += 1;
        }
        proof {
            let free = first_free(self.masks@);
            lemma_first_free(self.masks@);
            if free < slot {
                assert(self.masks@[free] != 0);
            }
            if slot < free {
                assert(self.masks@[slot as int] != 0);
            }
            assert(slot == free);
            old(self)@.lemma_spawn();
        }
        if slot < n {
            self.insert_cursor = slot;
            proof {
                let after = old(self)@.spawn();
                assert(self@.columns =~~= after.columns);
            }
        } else {
            let m: usize = self.columns.len();
            let mut k: usize = 0;
            assert(m == self@.types.len());
            while k < m
                invariant
                    m == self.columns@.len(),
                    m == old(self).columns@.len(),
                    m == self.types@.len(),
                    k <= m,
                    self.types == old(self).types,
                    self.masks == old(self).masks,
                    self.insert_cursor == old(self).insert_cursor,
                    forall|j: int|
                        0 <= j < k ==> (#[trigger] self.columns@[j])@ == (if self.types@[j]
                            is Some {
                            old(self).columns@[j]@.push(None)
                        } else {
                            old(self).columns@[j]@
                        }),
                    forall|j: int|
                        k <= j < m ==> (#[trigger] self.columns@[j]) == old(self).columns@[j],
                decreases m - k,
            {
                if self.types[k].is_some() {
                    self.columns[k].push(None);
                }
                k += 1;
            }
            self.masks.push(0);
            self.insert_cursor = n;
            proof {
                let after = old(self)@.spawn();
                assert(self@.columns =~~= after.columns);
                assert(self@.masks =~= after.masks);
            }
        }
        self
    }

    /// Puts `component` into `slot`, registering its type first if need be.
    /// Where it cannot go in, nothing changes.
    fn place(&mut self, component: Component, slot: usize) -> (placed: Result<(), ComponentError>)
        requires
            old(self).wf(),
        ensures
            final(self).wf(),
            final(self)@ == old(self)@.insert(slot as int, component),
            placed == old(self)@.insert_outcome(slot as int, component),
    {
        let key = component.key();
        let known = self.find(&key);
        if known.is_none() && self.types.len() >= MASK_BITS {
            return Err(ComponentError::AutomaticRegistrationError);
        }
        if slot >= self.masks.len() {
            return Err(ComponentError::NonexistentEntity);
        }
        let k: usize = match known {
            Some(k) => k,
            None => {
                let next: usize = self.types.len();
                self.register_component(key);
                next
            },
        };
        proof {
            old(self)@.lemma_register(key);
        }
        let ghost registered = self@;
        proof {
            registered.lemma_registered(key);
            registered.lemma_put(slot as int, component);
        }
        let mask: u128 = self.masks[slot] | bit_at(k);
        self.columns[k][slot] = Some(component);
        self.masks[slot] = mask;
        proof {
            let after = registered.put(slot as int, component);
            assert(self@.columns =~~= after.columns);
            assert(self@.masks =~= after.masks);
        }
        Ok(())
    }

    /// Attaches `component` to the entity that the last
    /// [`Entities::create_entity`] made room for.
    ///
    /// A component type that the store has not seen is registered first. A
    /// component of the same type that the entity carries already is
    /// replaced.
    pub fn insert(&mut self, component: Component) -> (entities: &mut Self)
        requires
            old(self).wf(),
            old(self)@.accepts(old(self)@.cursor as int, component),
        ensures
            entities.wf(),
            entities@ == old(self)@.insert(old(self)@.cursor as int, component),
            entities@.component(old(self)@.cursor as int, component.type_key()) == Some(component),
            *final(self) == *final(entities),
    {
        let slot: usize = self.insert_cursor;
        proof {
            old(self)@.lemma_insert(slot as int, component);
        }
        self.place(component, slot).unwrap();
        self
    }

    /// Attaches `component` to the entity that the last
    /// [`Entities::create_entity`] made room for, or says why it cannot.
    ///
    /// A component type that the store has not seen is registered first;
    /// this fails with `AutomaticRegistrationError` once all 128 bits are
    /// taken. Without an entity to write to the call fails with
    /// `NonexistentEntity`. A call that fails changes nothing. A component
    /// of the same type that the entity carries already is replaced.
    pub fn insert_checked(&mut self, component: Component) -> (inserted: Result<
        &mut Self,
        ComponentError,
    >)
        requires
            old(self).wf(),
        ensures
            match inserted {
                Ok(entities) => {
                    &&& old(self)@.insert_outcome(old(self)@.cursor as int, component) is Ok
                    &&& entities.wf()
                    &&& entities@ == old(self)@.insert(old(self)@.cursor as int, component)
                    &&& *final(self) == *final(entities)
                },
                Err(error) => {
                    &&& old(self)@.insert_outcome(old(self)@.cursor as int, component) == Err::<
                        (),
                        ComponentError,
                    >(error)
                    &&& final(self).wf()
                    &&& final(self)@ == old(self)@.insert(old(self)@.cursor as int, component)
                },
            },
    {
        let slot: usize = self.insert_cursor;
        match self.place(component, slot) {
            Ok(()) => Ok(self),
            Err(error) => Err(error),
        }
    }

    /// Attaches `component` to the entity in `index`.
    ///
    /// A component type that the store has not seen is registered first. A
    /// component of the same type that the entity carries already is
    /// replaced.
    pub fn insert_component_into_entity_by_id(&mut self, component: Component, index: usize)
        requires
            old(self).wf(),
            old(self)@.accepts(index as int, component),
        ensures
            final(self).wf(),
            final(self)@ == old(self)@.insert(index as int, component),
            final(self)@.component(index as int, component.type_key()) == Some(component),
    {
        proof {
            old(self)@.lemma_insert(index as int, component);
        }
        self.place(component, index).unwrap()
    }

    /// Attaches `component` to the entity in `index`, or says why it
    /// cannot.
    ///
    /// A component type that the store has not seen is registered first;
    /// this fails with `AutomaticRegistrationError` once all 128 bits are
    /// taken. A slot that does not exist gives `NonexistentEntity`. A call
    /// that fails changes nothing. A component of the same type that the
    /// entity carries already is replaced.
    pub fn insert_component_into_entity_by_id_checked(
        &mut self,
        component: Component,
        index: usize,
    ) -> (inserted: Result<(), ComponentError>)
        requires
            old(self).wf(),
        ensures
            final(self).wf(),
            final(self)@ == old(self)@.insert(index as int, component),
            inserted == old(self)@.insert_outcome(index as int, component),
    {
        self.place(component, index)
    }

    /// Takes the component of type `key` away from the entity in `index`, or
    /// says why it cannot.
    ///
    /// Only the bit in the entity's mask is cleared; the cell keeps its
    /// value until it is overwritten. Where the entity carries no such
    /// component nothing changes.
    pub fn delete_component_by_entity_id_checked(&mut self, key: &TypeId, index: usize) -> (deleted:
        Result<(), ComponentError>)
        requires
            old(self).wf(),
        ensures
            final(self).wf(),
            deleted == old(self)@.slot_outcome(*key, index),
            final(self)@ == if deleted is Ok {
                old(self)@.clear(index as int, *key)
            } else {
                old(self)@
            },
    {
        let k: usize = match self.find(key) {
            Some(k) => k,
            None => {
                return Err(ComponentError::UnregisteredComponentError);
            },
        };
        let n: usize = self.masks.len();
        if index >= n {
            return Err(ComponentError::IndexOutOfBoundsError { expected: n, found: index });
        }
        let mask: u128 = self.masks[index] & !bit_at(k);
        self.masks[index] = mask;
        proof {
            let after = old(self)@.clear(index as int, *key);
            old(self)@.lemma_clear(index as int, *key);
            assert(self@.columns =~~= after.columns);
            assert(self@.masks =~= after.masks);
        }
        Ok(())
    }

    /// Takes the component of type `key` away from the entity in `index`.
    ///
    /// Only the bit in the entity's mask is cleared; the cell keeps its
    /// value until it is overwritten. Where the entity carries no such
    /// component nothing changes.
    pub fn delete_component_by_entity_id(&mut self, key: &TypeId, index: usize)
        requires
            old(self).wf(),
            old(self)@.registered(*key),
            index < old(self)@.masks.len(),
        ensures
            final(self).wf(),
            final(self)@ == old(self)@.clear(index as int, *key),
    {
        self.delete_component_by_entity_id_checked(key, index).unwrap()
    }

    /// Deregisters the component type `key`, or says why it cannot.
    ///
    /// The type's column is dropped and its bit cleared in every entity's
    /// mask; the bit is not handed out again.
    pub fn delete_component_checked(&mut self, key: &TypeId) -> (deleted: Result<
        (),
        ComponentError,
    >)
        requires
            old(self).wf(),
        ensures
            final(self).wf(),
            deleted == if old(self)@.registered(*key) {
                Ok::<(), ComponentError>(())
            } else {
                Err::<(), ComponentError>(ComponentError::UnregisteredComponentError)
            },
            final(self)@ == if old(self)@.registered(*key) {
                old(self)@.unregister(*key)
            } else {
                old(self)@
            },
    {
        let k: usize = match self.find(key) {
            Some(k) => k,
            None => {
                return Err(ComponentError::UnregisteredComponentError);
            },
        };
        let off: u128 = !bit_at(k);
        self.types[k] = None;
        self.columns[k] = Vec::new();
        let n: usize = self.masks.len();
        let mut e: usize = 0;
        while e < n
            invariant
                n == self.masks@.len(),
                n == old(self).masks@.len(),
                e <= n,
                off == !bit(k as int),
                forall|i: int| 0 <= i < e ==> self.masks@[i] == old(self).masks@[i] & off,
                forall|i: int| e <= i < n ==> self.masks@[i] == old(self).masks@[i],
                self.types@ == old(self).types@.update(k as int, None),
                self.columns@.len() == old(self).columns@.len(),
                self.columns@[k as int]@ == Seq::<Option<Component>>::empty(),
                forall|j: int|
                    0 <= j < self.columns@.len() && j != k ==> self.columns@[j] == old(
                        self,
                    ).columns@[j],
                self.insert_cursor == old(self).insert_cursor,
            decreases n - e,
        {
            let mask: u128 = self.masks[e] & off;
            self.masks[e] = mask;
            e += 1;
        }
        proof {
            let after = old(self)@.unregister(*key);
            old(self)@.lemma_unregister(*key);
            assert(self@.types =~= after.types);
            assert(self@.columns =~~= after.columns);
            assert(self@.masks =~= after.masks);
        }
        Ok(())
    }

    /// Deregisters the component type `key`.
    ///
    /// The type's column is dropped and its bit cleared in every entity's
    /// mask; the bit is not handed out again.
    pub fn delete_component(&mut self, key: &TypeId)
        requires
            old(self).wf(),
            old(self)@.registered(*key),
        ensures
            final(self).wf(),
            final(self)@ == old(self)@.unregister(*key),
    {
        self.delete_component_checked(key).unwrap()
    }

    /// Deletes the entity in `index`, or says that there is no such slot.
    ///
    /// The entity's mask is emptied, so that no query finds it and
    /// [`Entities::create_entity`] can hand the slot out again. The cells
    /// keep their values until they are overwritten. A slot number that
    /// was kept from before names the new entity once the slot has been
    /// handed out again.
    pub fn delete_entity_by_id(&mut self, index: usize) -> (deleted: Result<(), ComponentError>)
        requires
            old(self).wf(),
        ensures
            final(self).wf(),
            deleted == if index < old(self)@.masks.len() {
                Ok::<(), ComponentError>(())
            } else {
                Err::<(), ComponentError>(
                    ComponentError::IndexOutOfBoundsError {
                        expected: old(self)@.masks.len() as usize,
                        found: index,
                    },
                )
            },
            final(self)@ == if index < old(self)@.masks.len() {
                old(self)@.despawn(index as int)
            } else {
                old(self)@
            },
    {
        let n: usize = self.masks.len();
        if index >= n {
            return Err(ComponentError::IndexOutOfBoundsError { expected: n, found: index });
        }
        self.masks[index] = 0;
        proof {
            let after = old(self)@.despawn(index as int);
            old(self)@.lemma_despawn(index as int);
            assert(self@.columns =~~= after.columns);
            assert(self@.masks =~= after.masks);
        }
        Ok(())
    }
}

} // verus!
