//! Queries: finding the entities that carry every one of a set of component
//! types, and handing out their components.

use crate::component::AccessError;
use crate::component::Component;
use crate::entities::auto_query::AutoQuery;
use crate::entities::auto_query::AutoQueryMut;
use crate::entities::query_entity::QueryEntity;
use crate::entities::Entities;
use crate::table::gather;
use crate::table::lemma_select_step;
use crate::table::select;
use crate::table::Table;
use std::any::TypeId;
use vstd::prelude::*;

verus! {

/// Why a query or a look-up in its result was turned down.
#[derive(Debug, Clone, Copy, PartialEq, Eq, Structural)]
pub enum QueryError {
    /// The component type is not registered.
    UnregisteredComponentError,
    /// The entity slot is out of range.
    OutOfBoundsIdError,
    /// The entity carries no component of that type.
    NonexistentComponentDataError,
    /// The component is there, but the borrow that was asked for was turned
    /// down.
    Access(AccessError),
}

/// A query as plain values.
pub struct QueryView {
    /// The store that is searched.
    pub table: Table,
    /// The union of the masks of the wanted types.
    pub mask: u128,
    /// The wanted types, in the order in which they were added.
    pub keys: Seq<TypeId>,
}

impl QueryView {
    /// The slots of the entities that the query finds, in ascending order:
    /// those whose mask covers the query's mask. A query that wants no type
    /// finds nothing.
    pub open spec fn selected(self) -> Seq<int> {
        if self.keys.len() == 0 {
            Seq::empty()
        } else {
            self.table.matching(self.mask)
        }
    }
}

/// The slots of a list as integers.
pub open spec fn as_ints(slots: Seq<usize>) -> Seq<int> {
    Seq::new(slots.len(), |i: int| slots[i] as int)
}

/// A search of a store for the entities that carry all of a set of
/// component types.
///
/// The wanted types are added one by one; the results come with one column
/// per wanted type, in the order in which the types were added, and with
/// the entities in ascending slot order.
#[derive(Debug)]
pub struct Query<'a> {
    map: u128,
    entities: &'a Entities,
    type_ids: Vec<TypeId>,
}

impl<'a> View for Query<'a> {
    type V = QueryView;

    closed spec fn view(&self) -> QueryView {
        QueryView { table: self.entities@, mask: self.map, keys: self.type_ids@ }
    }
}

impl<'a> Query<'a> {
    /// The query is well formed: the store is, every wanted type is
    /// registered in it, and the mask is the union of their masks.
    pub open spec fn wf(&self) -> bool {
        &&& self@.table.wf()
        &&& forall|i: int|
            0 <= i < self@.keys.len() ==> self@.table.registered(#[trigger] self@.keys[i])
        &&& self@.mask == self@.table.mask_over(self@.keys)
    }

    /// What a well-formed query finds is what its store holds for its
    /// wanted types: see [`Table::found`].
    pub proof fn lemma_selected(&self)
        requires
            self.wf(),
        ensures
            self@.selected() == self@.table.found(self@.keys),
    {
    }

    /// A query of `entities` that wants no type yet.
    pub fn new(entities: &'a Entities) -> (query: Query<'a>)
        ensures
            query@ == (QueryView { table: entities@, mask: 0, keys: Seq::empty() }),
            entities.wf() ==> query.wf(),
    {
        Query { map: 0, entities, type_ids: Vec::new() }
    }

    /// The store that is searched.
    pub fn entities(&self) -> (entities: &'a Entities)
        ensures
            entities@ == self@.table,
    {
        self.entities
    }

    /// The union of the masks of the wanted types.
    pub fn mask(&self) -> (mask: u128)
        ensures
            mask == self@.mask,
    {
        self.map
    }

    /// The wanted types, in the order in which they were added.
    pub fn type_ids(&self) -> (keys: &Vec<TypeId>)
        ensures
            keys@ == self@.keys,
    {
        &self.type_ids
    }

    /// Adds the component type `key` to the wanted types.
    pub fn with_component(&mut self, key: &TypeId) -> (query: &mut Self)
        requires
            old(self).wf(),
            old(self)@.table.registered(*key),
        ensures
            query.wf(),
            query@ == (QueryView {
                mask: old(self)@.mask | old(self)@.table.mask_of(*key),
                keys: old(self)@.keys.push(*key),
                ..old(self)@
            }),
            *final(self) == *final(query),
    {
        let bitmask: u128 = self.entities.get_bitmask(key).unwrap();
        self.map = self.map | bitmask;
        self.type_ids.push(*key);
        proof {
            assert(self@.keys.drop_last() =~= old(self)@.keys);
        }
        self
    }

    /// Adds the component type `key` to the wanted types, or says that the
    /// store does not know it.
    pub fn with_component_checked(&mut self, key: &TypeId) -> (added: Result<&mut Self, QueryError>)
        requires
            old(self).wf(),
        ensures
            match added {
                Ok(query) => {
                    &&& old(self)@.table.registered(*key)
                    &&& query.wf()
                    &&& query@ == (QueryView {
                        mask: old(self)@.mask | old(self)@.table.mask_of(*key),
                        keys: old(self)@.keys.push(*key),
                        ..old(self)@
                    })
                    &&& *final(self) == *final(query)
                },
                Err(error) => {
                    &&& !old(self)@.table.registered(*key)
                    &&& error == QueryError::UnregisteredComponentError
                    &&& *final(self) == *old(self)
                },
            },
    {
        match self.entities.get_bitmask(key) {
            Some(bitmask) => {
                self.map = self.map | bitmask;
                self.type_ids.push(*key);
                proof {
                    assert(self@.keys.drop_last() =~= old(self)@.keys);
                }
                Ok(self)
            },
            None => Err(QueryError::UnregisteredComponentError),
        }
    }

    /// The slots of the entities whose mask covers the query's mask,
    /// ascending.
    fn matching(&self) -> (slots: Vec<usize>)
        ensures
            as_ints(slots@) == self@.table.matching(self@.mask),
    {
        let n: usize = self.entities.entity_count();
        let mut slots: Vec<usize> = Vec::new();
        let mut e: usize = 0;
        assert(self@.table.masks.take(0) =~= Seq::<u128>::empty());
        while e < n
            invariant
                n == self@.table.masks.len(),
                e <= n,
                as_ints(slots@) == select(self@.table.masks.take(e as int), self@.mask),
            decreases n - e,
        {
            let mask: u128 = self.entities.mask_at(e);
            proof {
                lemma_select_step(self@.table.masks, self@.mask, e as int);
            }
            if mask & self.map == self.map {
                slots.push(e);
                assert(as_ints(slots@) =~= select(
                    self@.table.masks.take(e as int),
                    self@.mask,
                ).push(e as int));
            }
            e += 1;
        }
        assert(self@.table.masks.take(n as int) =~= self@.table.masks);
        slots
    }

    /// The slots of the entities that the query finds, ascending.
    fn selected(&self) -> (slots: Vec<usize>)
        ensures
            as_ints(slots@) == self@.selected(),
    {
        if self.type_ids.len() == 0 {
            let slots: Vec<usize> = Vec::new();
            assert(as_ints(slots@) =~= self@.selected());
            slots
        } else {
            self.matching()
        }
    }

    /// Runs the query and hands out the components found, one column per
    /// wanted type.
    ///
    /// Column `i` holds the components of the `i`-th wanted type, of the
    /// entities that carry every wanted type, in ascending slot order: the
    /// same position in two columns belongs to the same entity. A query
    /// that wants no type gives no column.
    pub fn run(&mut self) -> (columns: Vec<Vec<Component>>)
        requires
            old(self).wf(),
        ensures
            *final(self) == *old(self),
            columns@.len() == old(self)@.keys.len(),
            forall|i: int|
                0 <= i < columns@.len() ==> (#[trigger] columns@[i])@ == old(
                    self,
                )@.table.query_column(old(self)@.keys[i], old(self)@.mask),
    {
        let mut columns: Vec<Vec<Component>> = Vec::new();
        proof {
            self@.table.lemma_mask_over(self@.keys);
        }
        if self.map == 0 {
            return columns;
        }
        let slots = self.matching();
        let ghost picked = self@.table.matching(self@.mask);
        let wanted: usize = self.type_ids.len();
        let found: usize = slots.len();
        let mut i: usize = 0;
        assert(as_ints(slots@).len() == picked.len());
        while i < wanted
            invariant
                self.wf(),
                *self == *old(self),
                wanted == self@.keys.len(),
                found == slots@.len(),
                as_ints(slots@) == picked,
                picked == self@.table.matching(self@.mask),
                i <= wanted,
                columns@.len() == i,
                forall|j: int|
                    0 <= j < i ==> (#[trigger] columns@[j])@ == self@.table.query_column(
                        self@.keys[j],
                        self@.mask,
                    ),
            decreases wanted - i,
        {
            let key = &self.type_ids[i];
            let k: usize = self.entities.find(key).unwrap();
            let ghost cells = self@.table.columns[k as int];
            let mut column: Vec<Component> = Vec::new();
            let mut p: usize = 0;
            proof {
                self@.table.lemma_registered(*key);
            }
            while p < found
                invariant
                    self.wf(),
                    0 <= i < self@.keys.len(),
                    found == slots@.len(),
                    as_ints(slots@) == picked,
                    picked == self@.table.matching(self@.table.mask_over(self@.keys)),
                    k == self@.table.index_of(self@.keys[i as int]),
                    k < self@.table.types.len(),
                    self@.table.types[k as int] is Some,
                    cells == self@.table.columns[k as int],
                    p <= found,
                    column@ == gather(cells, picked.take(p as int)),
                decreases found - p,
            {
                let slot: usize = slots[p];
                proof {
                    assert(as_ints(slots@)[p as int] == slot);
                    self@.table.lemma_selected_cells(self@.keys, i as int, p as int);
                }
                match self.entities.cell_at(k, slot) {
                    Some(component) => {
                        column.push(component.share());
                    },
                    None => {},
                }
                proof {
                    assert(column@ =~= gather(cells, picked.take(p + 1)));
                }
                p += 1;
            }
            assert(picked.take(found as int) =~= picked);
            columns.push(column);
            i += 1;
        }
        columns
    }

    /// Runs the query and hands out one cursor per entity found, in
    /// ascending slot order. A query that wants no type finds no entity.
    /// The call never fails.
    pub fn run_entity(&self) -> (entities: Result<Vec<QueryEntity<'a>>, QueryError>)
        requires
            self.wf(),
        ensures
            entities matches Ok(found) && {
                &&& as_ints(Seq::new(found@.len(), |i: int| found@[i]@.id)) == self@.selected()
                &&& forall|i: int|
                    0 <= i < found@.len() ==> (#[trigger] found@[i])@.table == self@.table
            },
    {
        let slots = self.selected();
        let n: usize = slots.len();
        let mut found: Vec<QueryEntity<'a>> = Vec::new();
        let mut p: usize = 0;
        while p < n
            invariant
                n == slots@.len(),
                p <= n,
                found@.len() == p,
                forall|i: int| 0 <= i < p ==> (#[trigger] found@[i])@.id == slots@[i],
                forall|i: int| 0 <= i < p ==> (#[trigger] found@[i])@.table == self@.table,
            decreases n - p,
        {
            found.push(QueryEntity::new(slots[p], self.entities));
            p += 1;
        }
        assert(as_ints(Seq::new(found@.len(), |i: int| found@[i]@.id)) =~= as_ints(slots@));
        Ok(found)
    }

    /// The single-type fast path, for reading: every component of type `T`
    /// in the store.
    pub fn auto<T: 'static>(&self) -> (auto: AutoQuery<'a, T>)
        ensures
            auto@.table == self@.table,
            call_ensures(TypeId::of::<T>, (), auto@.key),
    {
        AutoQuery::new(self.entities)
    }

    /// The single-type fast path, for writing: every component of type `T`
    /// in the store.
    pub fn auto_mut<T: 'static>(&self) -> (auto: AutoQueryMut<'a, T>)
        ensures
            auto@.table == self@.table,
            call_ensures(TypeId::of::<T>, (), auto@.key),
    {
        AutoQueryMut::new(self.entities)
    }

    /// Writes the slots of the entities that the query finds into `buf`, in
    /// ascending order, in place of what `buf` held. A query that wants no
    /// type finds no entity.
    pub fn read_indexes_to_buf(&mut self, buf: &mut Vec<usize>) -> (query: &mut Self)
        ensures
            as_ints(final(buf)@) == old(self)@.selected(),
            *query == *old(self),
            *final(self) == *final(query),
    {
        *buf = self.selected();
        self
    }
}

} // verus!
