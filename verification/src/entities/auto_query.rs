//! The single-type fast path: every component of one type, without a
//! query.

use crate::bits::bit;
use crate::bits::bit_at;
use crate::bits::has_bit;
use crate::component::AccessError;
use crate::component::Component;
use crate::entities::Entities;
use crate::table::lemma_present_step;
use crate::table::present;
use crate::table::Table;
use std::any::TypeId;
use std::cell::Ref;
use std::cell::RefMut;
use std::marker::PhantomData;
use vstd::prelude::*;

verus! {

/// A single-type query as plain values.
pub struct AutoQueryView {
    /// The store that is searched.
    pub table: Table,
    /// The identifier of the type that is looked for.
    pub key: TypeId,
}

/// A walk over components as plain values.
pub struct WalkView {
    /// The components of the walk, in the order in which they come.
    pub components: Seq<Component>,
    /// How many of them have been handed out.
    pub position: nat,
}

/// The components of type `key` of the entities that carry one, in
/// ascending slot order.
fn collect<'a>(entities: &'a Entities, key: &TypeId) -> (components: Vec<&'a Component>)
    requires
        entities.wf(),
    ensures
        components@.len() == entities@.all_of(*key).len(),
        forall|i: int|
            0 <= i < components@.len() ==> *(#[trigger] components@[i]) == entities@.all_of(
                *key,
            )[i],
{
    let mut components: Vec<&'a Component> = Vec::new();
    let k: usize = match entities.find(key) {
        Some(k) => k,
        None => {
            return components;
        },
    };
    proof {
        entities@.lemma_registered(*key);
    }
    let bitmask: u128 = bit_at(k);
    let n: usize = entities.entity_count();
    let ghost cells = entities@.columns[k as int];
    let ghost masks = entities@.masks;
    let mut e: usize = 0;
    assert(masks.take(0) =~= Seq::<u128>::empty());
    while e < n
        invariant
            entities.wf(),
            n == entities@.masks.len(),
            masks == entities@.masks,
            cells == entities@.columns[k as int],
            k < entities@.types.len(),
            entities@.types[k as int] is Some,
            bitmask == bit(k as int),
            e <= n,
            components@.len() == present(cells, masks.take(e as int), k as int).len(),
            forall|i: int|
                0 <= i < components@.len() ==> *(#[trigger] components@[i]) == present(
                    cells,
                    masks.take(e as int),
                    k as int,
                )[i],
        decreases n - e,
    {
        proof {
            lemma_present_step(cells, masks, k as int, e as int);
        }
        if entities.mask_at(e) & bitmask != 0 {
            match entities.cell_at(k, e) {
                Some(component) => {
                    components.push(component);
                },
                None => {},
            }
        }
        e += 1;
    }
    assert(masks.take(n as int) =~= masks);
    components
}

/// Every component of type `T` in a store, for reading.
pub struct AutoQuery<'a, T> {
    entities: &'a Entities,
    key: TypeId,
    phantom: PhantomData<T>,
}

impl<'a, T: 'static> View for AutoQuery<'a, T> {
    type V = AutoQueryView;

    closed spec fn view(&self) -> AutoQueryView {
        AutoQueryView { table: self.entities@, key: self.key }
    }
}

impl<'a, T: 'static> AutoQuery<'a, T> {
    /// The single-type query of `entities` for the type `T`.
    pub fn new(entities: &'a Entities) -> (auto: AutoQuery<'a, T>)
        ensures
            auto@.table == entities@,
            call_ensures(TypeId::of::<T>, (), auto@.key),
    {
        AutoQuery { entities, key: TypeId::of::<T>(), phantom: PhantomData }
    }

    /// The identifier of the type that is looked for.
    pub fn key(&self) -> (key: TypeId)
        ensures
            key == self@.key,
    {
        self.key
    }

    /// The number of components of the type in the store.
    pub fn len(&self) -> (count: usize)
        requires
            self@.table.wf(),
        ensures
            count == self@.table.all_of(self@.key).len(),
    {
        let k: usize = match self.entities.find(&self.key) {
            Some(k) => k,
            None => {
                return 0;
            },
        };
        proof {
            self@.table.lemma_registered(self@.key);
        }
        let bitmask: u128 = bit_at(k);
        let n: usize = self.entities.entity_count();
        let ghost cells = self@.table.columns[k as int];
        let ghost masks = self@.table.masks;
        let mut count: usize = 0;
        let mut e: usize = 0;
        assert(masks.take(0) =~= Seq::<u128>::empty());
        while e < n
            invariant
                self@.table.wf(),
                n == masks.len(),
                masks == self@.table.masks,
                cells == self@.table.columns[k as int],
                k < self@.table.types.len(),
                self@.table.types[k as int] is Some,
                bitmask == bit(k as int),
                e <= n,
                count <= e,
                count == present(cells, masks.take(e as int), k as int).len(),
            decreases n - e,
        {
            proof {
                lemma_present_step(cells, masks, k as int, e as int);
            }
            if self.entities.mask_at(e) & bitmask != 0 {
                assert(has_bit(masks[e as int], k as int));
                assert(cells[e as int] is Some);
                count += 1;
            }
            e += 1;
        }
        assert(masks.take(n as int) =~= masks);
        count
    }

    /// A walk over the components of the type, in ascending slot order.
    pub fn into_iter(self) -> (walk: AutoQueryIntoIterator<'a, T>)
        requires
            self@.table.wf(),
        ensures
            walk@ == (WalkView { components: self@.table.all_of(self@.key), position: 0 }),
    {
        let components = collect(self.entities, &self.key);
        let walk = AutoQueryIntoIterator { components, position: 0, phantom: PhantomData };
        assert(walk@.components =~= self@.table.all_of(self@.key));
        walk
    }
}

/// A walk over the components of one type, borrowing each for reading as
/// it is reached.
pub struct AutoQueryIntoIterator<'a, T> {
    components: Vec<&'a Component>,
    position: usize,
    phantom: PhantomData<T>,
}

impl<'a, T: 'static> View for AutoQueryIntoIterator<'a, T> {
    type V = WalkView;

    closed spec fn view(&self) -> WalkView {
        WalkView {
            components: Seq::new(self.components@.len(), |i: int| *self.components@[i]),
            position: self.position as nat,
        }
    }
}

impl<'a, T: 'static> AutoQueryIntoIterator<'a, T> {
    /// The component that the walk hands out next, if it has not ended.
    pub fn peek(&self) -> (component: Option<&'a Component>)
        ensures
            match component {
                Some(component) => self@.position < self@.components.len()
                    && *component == self@.components[self@.position as int],
                None => self@.position >= self@.components.len(),
            },
    {
        if self.position < self.components.len() {
            Some(self.components[self.position])
        } else {
            None
        }
    }

    /// Borrows the next component for reading and moves on, or gives `None`
    /// at the end of the walk. A borrow that is turned down is given as
    /// the error; the walk moves on all the same.
    pub fn next(&mut self) -> (borrowed: Option<Result<Ref<'a, T>, AccessError>>)
        ensures
            final(self)@.components == old(self)@.components,
            borrowed is Some <==> old(self)@.position < old(self)@.components.len(),
            borrowed matches Some(answer) ==> old(self)@.components[old(
                self,
            )@.position as int].read_as(answer),
            final(self)@.position == if borrowed is Some {
                old(self)@.position + 1
            } else {
                old(self)@.position
            },
    {
        if self.position < self.components.len() {
            let component: &'a Component = self.components[self.position];
            self.position = self.position + 1;
            Some(component.get_ref::<T>())
        } else {
            None
        }
    }
}

/// Every component of type `T` in a store, for writing.
pub struct AutoQueryMut<'a, T> {
    entities: &'a Entities,
    key: TypeId,
    phantom: PhantomData<T>,
}

impl<'a, T: 'static> View for AutoQueryMut<'a, T> {
    type V = AutoQueryView;

    closed spec fn view(&self) -> AutoQueryView {
        AutoQueryView { table: self.entities@, key: self.key }
    }
}

impl<'a, T: 'static> AutoQueryMut<'a, T> {
    /// The single-type query of `entities` for the type `T`.
    pub fn new(entities: &'a Entities) -> (auto: AutoQueryMut<'a, T>)
        ensures
            auto@.table == entities@,
            call_ensures(TypeId::of::<T>, (), auto@.key),
    {
        AutoQueryMut { entities, key: TypeId::of::<T>(), phantom: PhantomData }
    }

    /// The identifier of the type that is looked for.
    pub fn key(&self) -> (key: TypeId)
        ensures
            key == self@.key,
    {
        self.key
    }

    /// A walk over the components of the type, in ascending slot order.
    pub fn into_iter(self) -> (walk: AutoQueryMutIntoIterator<'a, T>)
        requires
            self@.table.wf(),
        ensures
            walk@ == (WalkView { components: self@.table.all_of(self@.key), position: 0 }),
    {
        let components = collect(self.entities, &self.key);
        let walk = AutoQueryMutIntoIterator { components, position: 0, phantom: PhantomData };
        assert(walk@.components =~= self@.table.all_of(self@.key));
        walk
    }
}

/// A walk over the components of one type, borrowing each for writing as
/// it is reached.
pub struct AutoQueryMutIntoIterator<'a, T> {
    components: Vec<&'a Component>,
    position: usize,
    phantom: PhantomData<T>,
}

impl<'a, T: 'static> View for AutoQueryMutIntoIterator<'a, T> {
    type V = WalkView;

    closed spec fn view(&self) -> WalkView {
        WalkView {
            components: Seq::new(self.components@.len(), |i: int| *self.components@[i]),
            position: self.position as nat,
        }
    }
}

impl<'a, T: 'static> AutoQueryMutIntoIterator<'a, T> {
    /// The component that the walk hands out next, if it has not ended.
    pub fn peek(&self) -> (component: Option<&'a Component>)
        ensures
            match component {
                Some(component) => self@.position < self@.components.len()
                    && *component == self@.components[self@.position as int],
                None => self@.position >= self@.components.len(),
            },
    {
        if self.position < self.components.len() {
            Some(self.components[self.position])
        } else {
            None
        }
    }

    /// Borrows the next component for writing and moves on, or gives `None`
    /// at the end of the walk. A borrow that is turned down is given as
    /// the error; the walk moves on all the same.
    pub fn next(&mut self) -> (borrowed: Option<Result<RefMut<'a, T>, AccessError>>)
        ensures
            final(self)@.components == old(self)@.components,
            borrowed is Some <==> old(self)@.position < old(self)@.components.len(),
            borrowed matches Some(answer) ==> old(self)@.components[old(
                self,
            )@.position as int].written_as(answer),
            final(self)@.position == if borrowed is Some {
                old(self)@.position + 1
            } else {
                old(self)@.position
            },
    {
        if self.position < self.components.len() {
            let component: &'a Component = self.components[self.position];
            self.position = self.position + 1;
            Some(component.get_mut::<T>())
        } else {
            None
        }
    }
}

} // verus!
