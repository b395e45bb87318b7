//! The world: one store of entities and one store of resources, behind one
//! front.

use crate::component::Component;
use crate::entities::query::Query;
use crate::entities::query::QueryView;
use crate::entities::ComponentError;
use crate::entities::Entities;
use crate::resources::delete_outcome;
use crate::resources::read_outcome;
use crate::resources::write_outcome;
use crate::resources::Resources;
use crate::resources::ResourcesError;
use crate::system::IntoSystem;
use crate::table::Table;
use std::any::TypeId;
use std::cell::Ref;
use std::cell::RefMut;
use vstd::prelude::*;

verus! {

/// A world as plain values.
pub struct WorldView {
    /// The resources, by type.
    pub resources: Map<TypeId, Component>,
    /// The entities and their components.
    pub entities: Table,
}

/// Holds the entities and the resources, and hands every call on to the
/// store it belongs to.
#[derive(Debug)]
pub struct World {
    resources: Resources,
    entities: Entities,
}

impl View for World {
    type V = WorldView;

    closed spec fn view(&self) -> WorldView {
        WorldView { resources: self.resources@, entities: self.entities@ }
    }
}

impl Default for World {
    /// A world without entities, component types or resources.
    fn default() -> (world: World)
        ensures
            world.wf(),
            world@ == (WorldView {
                resources: Map::<TypeId, Component>::empty(),
                entities: Table::empty(),
            }),
    {
        World { resources: Resources::new(), entities: Entities::default() }
    }
}

impl World {
    /// Whether the store of resources is well formed.
    pub closed spec fn resources_wf(&self) -> bool {
        self.resources.wf()
    }

    /// The world is well formed: both of its stores are.
    pub open spec fn wf(&self) -> bool {
        self.resources_wf() && self@.entities.wf()
    }

    /// A world without entities, component types or resources.
    pub fn new() -> (world: World)
        ensures
            world.wf(),
            world@ == (WorldView {
                resources: Map::<TypeId, Component>::empty(),
                entities: Table::empty(),
            }),
    {
        World { resources: Resources::new(), entities: Entities::default() }
    }

    /// The store of entities.
    pub fn entities(&self) -> (entities: &Entities)
        ensures
            entities@ == self@.entities,
    {
        &self.entities
    }

    /// The store of resources.
    pub fn resources(&self) -> (resources: &Resources)
        ensures
            resources@ == self@.resources,
            self.wf() ==> resources.wf(),
    {
        &self.resources
    }

    /// Stores `resource` under its type, in place of the resource of that
    /// type, if there was one.
    pub fn insert_resource(&mut self, resource: Component)
        requires
            old(self).wf(),
        ensures
            final(self).wf(),
            final(self)@ == (WorldView {
                resources: old(self)@.resources.insert(resource.type_key(), resource),
                ..old(self)@
            }),
    {
        self.resources.add(resource);
    }

    /// Borrows the resource of type `T` for reading.
    ///
    /// Fails with `NonexistentResourceError` if nothing is stored under the
    /// identifier of `T`; where the resource is there, the borrow itself can
    /// still be turned down, which gives `Access`.
    pub fn get_resource<T: 'static>(&self) -> (borrowed: Result<Ref<'_, T>, ResourcesError>)
        requires
            self.wf(),
        ensures
            exists|key: TypeId|
                #[trigger] call_ensures(TypeId::of::<T>, (), key) && read_outcome(
                    self@.resources,
                    key,
                    borrowed,
                ),
    {
        let borrowed = self.resources.get_ref::<T>();
        proof {
            let key = choose|key: TypeId|
                #[trigger] call_ensures(TypeId::of::<T>, (), key) && read_outcome(
                    self.resources@,
                    key,
                    borrowed,
                );
            assert(read_outcome(self@.resources, key, borrowed));
        }
        borrowed
    }

    /// Borrows the resource of type `T` for writing.
    ///
    /// Fails with `NonexistentResourceError` if nothing is stored under the
    /// identifier of `T`; where the resource is there, the borrow itself can
    /// still be turned down, which gives `Access`.
    pub fn get_resource_mut<T: 'static>(&self) -> (borrowed: Result<RefMut<'_, T>, ResourcesError>)
        requires
            self.wf(),
        ensures
            exists|key: TypeId|
                #[trigger] call_ensures(TypeId::of::<T>, (), key) && write_outcome(
                    self@.resources,
                    key,
                    borrowed,
                ),
    {
        let borrowed = self.resources.get_mut::<T>();
        proof {
            let key = choose|key: TypeId|
                #[trigger] call_ensures(TypeId::of::<T>, (), key) && write_outcome(
                    self.resources@,
                    key,
                    borrowed,
                );
            assert(write_outcome(self@.resources, key, borrowed));
        }
        borrowed
    }

    /// Takes the resource of type `T` out of the world and hands its value
    /// back.
    ///
    /// Fails with `NonexistentResourceError` if nothing is stored under the
    /// identifier of `T`, and leaves the world as it is. Where the resource
    /// is there it leaves the world; moving the value out of it can still be
    /// turned down, which gives `Access`.
    pub fn delete_resource<T: 'static>(&mut self) -> (deleted: Result<T, ResourcesError>)
        requires
            old(self).wf(),
        ensures
            final(self).wf(),
            final(self)@.entities == old(self)@.entities,
            exists|key: TypeId|
                #[trigger] call_ensures(TypeId::of::<T>, (), key) && delete_outcome(
                    old(self)@.resources,
                    final(self)@.resources,
                    key,
                    deleted,
                ),
    {
        let deleted = self.resources.delete::<T>();
        proof {
            let key = choose|key: TypeId|
                #[trigger] call_ensures(TypeId::of::<T>, (), key) && delete_outcome(
                    old(self).resources@,
                    self.resources@,
                    key,
                    deleted,
                );
            assert(delete_outcome(old(self)@.resources, self@.resources, key, deleted));
        }
        deleted
    }

    /// Registers the component type `key`; see
    /// [`Entities::register_component`].
    pub fn register_component(&mut self, key: TypeId)
        requires
            old(self).wf(),
        ensures
            final(self).wf(),
            final(self)@ == (WorldView {
                entities: old(self)@.entities.register(key),
                ..old(self)@
            }),
    {
        self.entities.register_component(key)
    }

    /// Makes room for a new entity and hands out the store of entities, so
    /// that components can be inserted into it; see
    /// [`Entities::create_entity`].
    pub fn spawn(&mut self) -> (entities: &mut Entities)
        requires
            old(self).wf(),
        ensures
            entities.wf(),
            entities@ == old(self)@.entities.spawn(),
            final(self)@ == (WorldView { entities: final(entities)@, ..old(self)@ }),
            final(self).resources_wf(),
    {
        self.entities.create_entity()
    }

    /// Takes the component of type `key` away from the entity in `index`;
    /// see [`Entities::delete_component_by_entity_id`].
    pub fn delete_component_from_ent(&mut self, key: &TypeId, index: usize)
        requires
            old(self).wf(),
            old(self)@.entities.registered(*key),
            index < old(self)@.entities.masks.len(),
        ensures
            final(self).wf(),
            final(self)@ == (WorldView {
                entities: old(self)@.entities.clear(index as int, *key),
                ..old(self)@
            }),
    {
        self.entities.delete_component_by_entity_id(key, index)
    }

    /// Takes the component of type `key` away from the entity in `index`,
    /// or says why it cannot; see
    /// [`Entities::delete_component_by_entity_id_checked`].
    pub fn delete_component_from_ent_checked(&mut self, key: &TypeId, index: usize) -> (deleted:
        Result<(), ComponentError>)
        requires
            old(self).wf(),
        ensures
            final(self).wf(),
            deleted == old(self)@.entities.slot_outcome(*key, index),
            final(self)@ == (WorldView {
                entities: if deleted is Ok {
                    old(self)@.entities.clear(index as int, *key)
                } else {
                    old(self)@.entities
                },
                ..old(self)@
            }),
    {
        self.entities.delete_component_by_entity_id_checked(key, index)
    }

    /// Attaches `component` to the entity in `index`; see
    /// [`Entities::insert_component_into_entity_by_id`].
    pub fn insert_component_into_entity(&mut self, component: Component, index: usize)
        requires
            old(self).wf(),
            old(self)@.entities.accepts(index as int, component),
        ensures
            final(self).wf(),
            final(self)@ == (WorldView {
                entities: old(self)@.entities.insert(index as int, component),
                ..old(self)@
            }),
    {
        self.entities.insert_component_into_entity_by_id(component, index);
    }

    /// Attaches `component` to the entity in `index`, or says why it
    /// cannot; see [`Entities::insert_component_into_entity_by_id_checked`].
    pub fn insert_component_into_entity_checked(
        &mut self,
        component: Component,
        index: usize,
    ) -> (inserted: Result<(), ComponentError>)
        requires
            old(self).wf(),
        ensures
            final(self).wf(),
            inserted == old(self)@.entities.insert_outcome(index as int, component),
            final(self)@ == (WorldView {
                entities: old(self)@.entities.insert(index as int, component),
                ..old(self)@
            }),
    {
        self.entities.insert_component_into_entity_by_id_checked(component, index)
    }

    /// Deregisters the component type `key`; see
    /// [`Entities::delete_component`].
    pub fn unregister_component(&mut self, key: &TypeId)
        requires
            old(self).wf(),
            old(self)@.entities.registered(*key),
        ensures
            final(self).wf(),
            final(self)@ == (WorldView {
                entities: old(self)@.entities.unregister(*key),
                ..old(self)@
            }),
    {
        self.entities.delete_component(key);
    }

    /// Deregisters the component type `key`, or says that it is not
    /// registered; see [`Entities::delete_component_checked`].
    pub fn unregister_component_checked(&mut self, key: &TypeId) -> (deleted: Result<
        (),
        ComponentError,
    >)
        requires
            old(self).wf(),
        ensures
            final(self).wf(),
            deleted == if old(self)@.entities.registered(*key) {
                Ok::<(), ComponentError>(())
            } else {
                Err::<(), ComponentError>(ComponentError::UnregisteredComponentError)
            },
            final(self)@ == (WorldView {
                entities: if old(self)@.entities.registered(*key) {
                    old(self)@.entities.unregister(*key)
                } else {
                    old(self)@.entities
                },
                ..old(self)@
            }),
    {
        self.entities.delete_component_checked(key)
    }

    /// Deletes the entity in `index`, or says that there is no such slot;
    /// see [`Entities::delete_entity_by_id`].
    pub fn delete_entity(&mut self, index: usize) -> (deleted: Result<(), ComponentError>)
        requires
            old(self).wf(),
        ensures
            final(self).wf(),
            deleted == if index < old(self)@.entities.masks.len() {
                Ok::<(), ComponentError>(())
            } else {
                Err::<(), ComponentError>(
                    ComponentError::IndexOutOfBoundsError {
                        expected: old(self)@.entities.masks.len() as usize,
                        found: index,
                    },
                )
            },
            final(self)@ == (WorldView {
                entities: if index < old(self)@.entities.masks.len() {
                    old(self)@.entities.despawn(index as int)
                } else {
                    old(self)@.entities
                },
                ..old(self)@
            }),
    {
        self.entities.delete_entity_by_id(index)
    }

    /// Runs `gen` as a system: calls it with the queries and the handles to
    /// resources that its signature asks for.
    pub fn run_system<'a, F, T>(&'a self, gen: F) where F: IntoSystem<'a, T>
        requires
            self.wf(),
            gen.ready(self@.entities, self@.resources),
        ensures
            gen.ran(self@.entities, self@.resources),
    {
        gen.run(&self.entities, &self.resources)
    }

    /// A new query of the world's entities.
    pub fn query(&self) -> (query: Query<'_>)
        ensures
            query@ == (QueryView { table: self@.entities, mask: 0, keys: Seq::empty() }),
            self.wf() ==> query.wf(),
    {
        Query::new(&self.entities)
    }
}

} // verus!
