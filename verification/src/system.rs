//! Systems: functions that work on the world and say in their parameters
//! what they need of it, a query or the one value of a type. The typed
//! handles to resources are here too.

use crate::component::Component;
use crate::entities::fn_query::FnQuery;
use crate::entities::fn_query::FnQueryContainedTupleType;
use crate::entities::Entities;
use crate::resources::read_outcome;
use crate::resources::write_outcome;
use crate::resources::Resources;
use crate::resources::ResourcesError;
use crate::table::Table;
use std::any::TypeId;
use std::cell::Ref;
use std::cell::RefMut;
use std::marker::PhantomData;
use vstd::prelude::*;

verus! {

/// A handle to a resource as plain values.
pub struct ResView {
    /// What the store of resources holds.
    pub resources: Map<TypeId, Component>,
    /// The identifier of the type that the handle stands for.
    pub key: TypeId,
}

/// A handle to the resource of type `T`, to read it.
pub struct Res<'a, T> {
    resources: &'a Resources,
    key: TypeId,
    phantom: PhantomData<T>,
}

impl<'a, T: 'static> View for Res<'a, T> {
    type V = ResView;

    closed spec fn view(&self) -> ResView {
        ResView { resources: self.resources@, key: self.key }
    }
}

impl<'a, T: 'static> Res<'a, T> {
    /// The store that the handle reaches into is well formed.
    pub closed spec fn wf(&self) -> bool {
        self.resources.wf()
    }

    /// The handle to the resource of type `T` in `resources`.
    pub fn new(resources: &'a Resources) -> (res: Res<'a, T>)
        ensures
            res@.resources == resources@,
            call_ensures(TypeId::of::<T>, (), res@.key),
            resources.wf() ==> res.wf(),
    {
        Res { resources, key: TypeId::of::<T>(), phantom: PhantomData }
    }

    /// The identifier of the type that the handle stands for.
    pub fn key(&self) -> (key: TypeId)
        ensures
            key == self@.key,
    {
        self.key
    }

    /// Borrows the resource for reading.
    ///
    /// Fails with `NonexistentResourceError` if nothing is stored under the
    /// handle's key; where the resource is there, the borrow itself can
    /// still be turned down, which gives `Access`.
    pub fn get(&self) -> (borrowed: Result<Ref<'a, T>, ResourcesError>)
        requires
            self.wf(),
        ensures
            read_outcome(self@.resources, self@.key, borrowed),
    {
        match self.resources.get(&self.key) {
            Some(resource) => match resource.get_ref::<T>() {
                Ok(value) => Ok(value),
                Err(error) => Err(ResourcesError::Access(error)),
            },
            None => Err(ResourcesError::NonexistentResourceError),
        }
    }
}

/// A handle to the resource of type `T`, to write it.
pub struct ResMut<'a, T> {
    resources: &'a Resources,
    key: TypeId,
    phantom: PhantomData<T>,
}

impl<'a, T: 'static> View for ResMut<'a, T> {
    type V = ResView;

    closed spec fn view(&self) -> ResView {
        ResView { resources: self.resources@, key: self.key }
    }
}

impl<'a, T: 'static> ResMut<'a, T> {
    /// The store that the handle reaches into is well formed.
    pub closed spec fn wf(&self) -> bool {
        self.resources.wf()
    }

    /// The handle to the resource of type `T` in `resources`.
    pub fn new(resources: &'a Resources) -> (res: ResMut<'a, T>)
        ensures
            res@.resources == resources@,
            call_ensures(TypeId::of::<T>, (), res@.key),
            resources.wf() ==> res.wf(),
    {
        ResMut { resources, key: TypeId::of::<T>(), phantom: PhantomData }
    }

    /// The identifier of the type that the handle stands for.
    pub fn key(&self) -> (key: TypeId)
        ensures
            key == self@.key,
    {
        self.key
    }

    /// Borrows the resource for writing.
    ///
    /// Fails with `NonexistentResourceError` if nothing is stored under the
    /// handle's key; where the resource is there, the borrow itself can
    /// still be turned down, which gives `Access`.
    pub fn get(&self) -> (borrowed: Result<RefMut<'a, T>, ResourcesError>)
        requires
            self.wf(),
        ensures
            write_outcome(self@.resources, self@.key, borrowed),
    {
        match self.resources.get(&self.key) {
            Some(resource) => match resource.get_mut::<T>() {
                Ok(value) => Ok(value),
                Err(error) => Err(ResourcesError::Access(error)),
            },
            None => Err(ResourcesError::NonexistentResourceError),
        }
    }
}

/// What can stand as a parameter of a system: a query or a handle to a
/// resource.
pub trait SystemParams<'a>: Sized {
    /// Whether the parameter reaches into these stores.
    spec fn reaches(&self, entities: Table, resources: Map<TypeId, Component>) -> bool;

    /// The parameter for these stores.
    fn get(entities: &'a Entities, resources: &'a Resources) -> (param: Self)
        requires
            entities.wf(),
            resources.wf(),
        ensures
            param.reaches(entities@, resources@),
    ;
}

impl<'a, T> SystemParams<'a> for FnQuery<'a, T> where T: FnQueryContainedTupleType<'a> {
    open spec fn reaches(&self, entities: Table, resources: Map<TypeId, Component>) -> bool {
        self@ == entities && self@.wf()
    }

    fn get(entities: &'a Entities, _resources: &'a Resources) -> (param: Self) {
        FnQuery::new(entities)
    }
}

impl<'a, T: 'static> SystemParams<'a> for Res<'a, T> {
    open spec fn reaches(&self, entities: Table, resources: Map<TypeId, Component>) -> bool {
        self@.resources == resources && self.wf()
    }

    fn get(_entities: &'a Entities, resources: &'a Resources) -> (param: Self) {
        Res::new(resources)
    }
}

impl<'a, T: 'static> SystemParams<'a> for ResMut<'a, T> {
    open spec fn reaches(&self, entities: Table, resources: Map<TypeId, Component>) -> bool {
        self@.resources == resources && self.wf()
    }

    fn get(_entities: &'a Entities, resources: &'a Resources) -> (param: Self) {
        ResMut::new(resources)
    }
}

/// Functions that can be run as systems: those of one to five parameters,
/// each a system parameter.
pub trait IntoSystem<'a, Arguments>: Sized {
    /// Whether the function can be called with parameters that reach into
    /// these stores, whichever they are.
    spec fn ready(&self, entities: Table, resources: Map<TypeId, Component>) -> bool;

    /// Whether the function has been called with parameters that reach into
    /// these stores.
    spec fn ran(&self, entities: Table, resources: Map<TypeId, Component>) -> bool;

    /// Calls the function with the parameters that its signature asks for.
    fn run(self, entities: &'a Entities, resources: &'a Resources)
        requires
            entities.wf(),
            resources.wf(),
            self.ready(entities@, resources@),
        ensures
            self.ran(entities@, resources@),
    ;
}

impl<'a, F, T> IntoSystem<'a, T> for F where T: SystemParams<'a>, F: Fn(T) {
    open spec fn ready(&self, entities: Table, resources: Map<TypeId, Component>) -> bool {
        forall|p: T| p.reaches(entities, resources) ==> #[trigger] self.requires((p,))
    }

    open spec fn ran(&self, entities: Table, resources: Map<TypeId, Component>) -> bool {
        exists|p: T| p.reaches(entities, resources) && #[trigger] self.ensures((p,), ())
    }

    fn run(self, entities: &'a Entities, resources: &'a Resources) {
        (self)(T::get(entities, resources))
    }
}

impl<'a, F, T1, T2> IntoSystem<'a, (T1, T2)> for F where
    T1: SystemParams<'a>,
    T2: SystemParams<'a>,
    F: Fn(T1, T2),
 {
    open spec fn ready(&self, entities: Table, resources: Map<TypeId, Component>) -> bool {
        forall|p1: T1, p2: T2|
            p1.reaches(entities, resources) && p2.reaches(entities, resources)
                ==> #[trigger] self.requires((p1, p2))
    }

    open spec fn ran(&self, entities: Table, resources: Map<TypeId, Component>) -> bool {
        exists|p1: T1, p2: T2|
            p1.reaches(entities, resources) && p2.reaches(entities, resources)
                && #[trigger] self.ensures((p1, p2), ())
    }

    fn run(self, entities: &'a Entities, resources: &'a Resources) {
        (self)(T1::get(entities, resources), T2::get(entities, resources))
    }
}

impl<'a, F, T1, T2, T3> IntoSystem<'a, (T1, T2, T3)> for F where
    T1: SystemParams<'a>,
    T2: SystemParams<'a>,
    T3: SystemParams<'a>,
    F: Fn(T1, T2, T3),
 {
    open spec fn ready(&self, entities: Table, resources: Map<TypeId, Component>) -> bool {
        forall|p1: T1, p2: T2, p3: T3|
            p1.reaches(entities, resources) && p2.reaches(entities, resources) && p3.reaches(
                entities,
                resources,
            ) ==> #[trigger] self.requires((p1, p2, p3))
    }

    open spec fn ran(&self, entities: Table, resources: Map<TypeId, Component>) -> bool {
        exists|p1: T1, p2: T2, p3: T3|
            p1.reaches(entities, resources) && p2.reaches(entities, resources) && p3.reaches(
                entities,
                resources,
            ) && #[trigger] self.ensures((p1, p2, p3), ())
    }

    fn run(self, entities: &'a Entities, resources: &'a Resources) {
        (self)(
            T1::get(entities, resources),
            T2::get(entities, resources),
            T3::get(entities, resources),
        )
    }
}

impl<'a, F, T1, T2, T3, T4> IntoSystem<'a, (T1, T2, T3, T4)> for F where
    T1: SystemParams<'a>,
    T2: SystemParams<'a>,
    T3: SystemParams<'a>,
    T4: SystemParams<'a>,
    F: Fn(T1, T2, T3, T4),
 {
    open spec fn ready(&self, entities: Table, resources: Map<TypeId, Component>) -> bool {
        forall|p1: T1, p2: T2, p3: T3, p4: T4|
            p1.reaches(entities, resources) && p2.reaches(entities, resources) && p3.reaches(
                entities,
                resources,
            ) && p4.reaches(entities, resources) ==> #[trigger] self.requires((p1, p2, p3, p4))
    }

    open spec fn ran(&self, entities: Table, resources: Map<TypeId, Component>) -> bool {
        exists|p1: T1, p2: T2, p3: T3, p4: T4|
            p1.reaches(entities, resources) && p2.reaches(entities, resources) && p3.reaches(
                entities,
                resources,
            ) && p4.reaches(entities, resources) && #[trigger] self.ensures((p1, p2, p3, p4), ())
    }

    fn run(self, entities: &'a Entities, resources: &'a Resources) {
        (self)(
            T1::get(entities, resources),
            T2::get(entities, resources),
            T3::get(entities, resources),
            T4::get(entities, resources),
        )
    }
}

impl<'a, F, T1, T2, T3, T4, T5> IntoSystem<'a, (T1, T2, T3, T4, T5)> for F where
    T1: SystemParams<'a>,
    T2: SystemParams<'a>,
    T3: SystemParams<'a>,
    T4: SystemParams<'a>,
    T5: SystemParams<'a>,
    F: Fn(T1, T2, T3, T4, T5),
 {
    open spec fn ready(&self, entities: Table, resources: Map<TypeId, Component>) -> bool {
        forall|p1: T1, p2: T2, p3: T3, p4: T4, p5: T5|
            p1.reaches(entities, resources) && p2.reaches(entities, resources) && p3.reaches(
                entities,
                resources,
            ) && p4.reaches(entities, resources) && p5.reaches(entities, resources)
                ==> #[trigger] self.requires((p1, p2, p3, p4, p5))
    }

    open spec fn ran(&self, entities: Table, resources: Map<TypeId, Component>) -> bool {
        exists|p1: T1, p2: T2, p3: T3, p4: T4, p5: T5|
            p1.reaches(entities, resources) && p2.reaches(entities, resources) && p3.reaches(
                entities,
                resources,
            ) && p4.reaches(entities, resources) && p5.reaches(entities, resources)
                && #[trigger] self.ensures((p1, p2, p3, p4, p5), ())
    }

    fn run(self, entities: &'a Entities, resources: &'a Resources) {
        (self)(
            T1::get(entities, resources),
            T2::get(entities, resources),
            T3::get(entities, resources),
            T4::get(entities, resources),
            T5::get(entities, resources),
        )
    }
}

} // verus!
