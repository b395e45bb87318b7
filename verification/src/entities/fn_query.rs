//! Queries by the types named in a type parameter.
//!
//! An [`FnQuery`] says in its type parameter which components it wants:
//! `FnQuery<&Health>` for every health, to read; `FnQuery<(&mut Health,
//! &Position)>` for the health, to write, and the position, to read, of
//! every entity that carries both. It is what a function that works on the
//! store takes as its parameter.

use crate::component::AccessError;
use crate::component::Component;
use crate::entities::query::as_ints;
use crate::entities::query::Query;
use crate::entities::Entities;
use crate::table::Table;
use std::any::TypeId;
use std::cell::Ref;
use std::cell::RefMut;
use std::marker::PhantomData;
use vstd::prelude::*;

verus! {

/// One wanted component type, and how it is borrowed: `&T` to read it,
/// `&mut T` to write it.
pub trait FnQueryContainedIndividualType<'a> {
    /// The borrow that is handed out.
    type ReturnType;

    /// The identifier of the wanted type.
    fn type_id_new() -> TypeId;

    /// Borrows the component.
    fn map_ref(component: &'a Component) -> Result<Self::ReturnType, AccessError>;
}

impl<'a, T: 'static> FnQueryContainedIndividualType<'a> for &T {
    type ReturnType = Ref<'a, T>;

    /// The identifier that `TypeId::of` gives for `T`.
    fn type_id_new() -> (id: TypeId)
        ensures
            call_ensures(TypeId::of::<T>, (), id),
    {
        TypeId::of::<T>()
    }

    /// Borrows the component for reading, as [`Component::get_ref`] does.
    fn map_ref(component: &'a Component) -> (borrowed: Result<Self::ReturnType, AccessError>)
        ensures
            component.read_as(borrowed),
    {
        component.get_ref::<T>()
    }
}

impl<'a, T: 'static> FnQueryContainedIndividualType<'a> for &mut T {
    type ReturnType = RefMut<'a, T>;

    /// The identifier that `TypeId::of` gives for `T`.
    fn type_id_new() -> (id: TypeId)
        ensures
            call_ensures(TypeId::of::<T>, (), id),
    {
        TypeId::of::<T>()
    }

    /// Borrows the component for writing, as [`Component::get_mut`] does.
    fn map_ref(component: &'a Component) -> (borrowed: Result<Self::ReturnType, AccessError>)
        ensures
            component.written_as(borrowed),
    {
        component.get_mut::<T>()
    }
}

/// What a query can be asked for: one component type, or a tuple of two or
/// three.
pub trait FnQueryContainedTupleType<'a> {
    /// The borrows that are handed out for one entity.
    type ReturnType;

    /// How many types are wanted.
    spec fn arity() -> nat;

    /// The identifiers of the wanted types, in order.
    fn keys() -> (keys: Vec<TypeId>)
        ensures
            keys@.len() == Self::arity(),
    ;

    /// Borrows the components of one row, from the first to the last. The
    /// first borrow that is turned down ends the attempt; the borrows taken
    /// before it are given back.
    fn map_row(row: &Vec<&'a Component>) -> (borrowed: Result<Self::ReturnType, AccessError>)
        requires
            row@.len() == Self::arity(),
    ;
}

impl<'a, T> FnQueryContainedTupleType<'a> for T where T: FnQueryContainedIndividualType<'a> {
    type ReturnType = T::ReturnType;

    open spec fn arity() -> nat {
        1
    }

    /// The one identifier that `T` gives.
    fn keys() -> (keys: Vec<TypeId>)
        ensures
            call_ensures(T::type_id_new, (), keys@[0]),
    {
        let mut keys: Vec<TypeId> = Vec::new();
        keys.push(T::type_id_new());
        keys
    }

    /// What `T` makes of the one component of the row.
    fn map_row(row: &Vec<&'a Component>) -> (borrowed: Result<Self::ReturnType, AccessError>)
        ensures
            call_ensures(T::map_ref, (row@[0],), borrowed),
    {
        T::map_ref(row[0])
    }
}

impl<'a, T1, T2> FnQueryContainedTupleType<'a> for (T1, T2) where
    T1: FnQueryContainedIndividualType<'a>,
    T2: FnQueryContainedIndividualType<'a>,
 {
    type ReturnType = (T1::ReturnType, T2::ReturnType);

    open spec fn arity() -> nat {
        2
    }

    /// The identifiers that `T1` and `T2` give, in this order.
    fn keys() -> (keys: Vec<TypeId>)
        ensures
            call_ensures(T1::type_id_new, (), keys@[0]),
            call_ensures(T2::type_id_new, (), keys@[1]),
    {
        let mut keys: Vec<TypeId> = Vec::new();
        keys.push(T1::type_id_new());
        keys.push(T2::type_id_new());
        keys
    }

    /// The two borrows, where both are granted; else the error of the
    /// first that is turned down. The second component is not asked once
    /// the first has refused.
    fn map_row(row: &Vec<&'a Component>) -> (borrowed: Result<Self::ReturnType, AccessError>)
        ensures
            match borrowed {
                Ok((first, second)) => {
                    &&& call_ensures(T1::map_ref, (row@[0],), Ok(first))
                    &&& call_ensures(T2::map_ref, (row@[1],), Ok(second))
                },
                Err(error) => {
                    ||| call_ensures(T1::map_ref, (row@[0],), Err(error))
                    ||| exists|first: T1::ReturnType|
                        #![trigger call_ensures(T1::map_ref, (row@[0],), Ok(first))]
                        {
                            &&& call_ensures(T1::map_ref, (row@[0],), Ok(first))
                            &&& call_ensures(T2::map_ref, (row@[1],), Err(error))
                        }
                },
            },
    {
        let first = match T1::map_ref(row[0]) {
            Ok(value) => value,
            Err(error) => {
                return Err(error);
            },
        };
        match T2::map_ref(row[1]) {
            Ok(second) => Ok((first, second)),
            Err(error) => Err(error),
        }
    }
}

impl<'a, T1, T2, T3> FnQueryContainedTupleType<'a> for (T1, T2, T3) where
    T1: FnQueryContainedIndividualType<'a>,
    T2: FnQueryContainedIndividualType<'a>,
    T3: FnQueryContainedIndividualType<'a>,
 {
    type ReturnType = (T1::ReturnType, T2::ReturnType, T3::ReturnType);

    open spec fn arity() -> nat {
        3
    }

    /// The identifiers that `T1`, `T2` and `T3` give, in this order.
    fn keys() -> (keys: Vec<TypeId>)
        ensures
            call_ensures(T1::type_id_new, (), keys@[0]),
            call_ensures(T2::type_id_new, (), keys@[1]),
            call_ensures(T3::type_id_new, (), keys@[2]),
    {
        let mut keys: Vec<TypeId> = Vec::new();
        keys.push(T1::type_id_new());
        keys.push(T2::type_id_new());
        keys.push(T3::type_id_new());
        keys
    }

    /// The three borrows, where all are granted; else the error of the
    /// first that is turned down. No component is asked once one before it
    /// has refused.
    fn map_row(row: &Vec<&'a Component>) -> (borrowed: Result<Self::ReturnType, AccessError>)
        ensures
            match borrowed {
                Ok((first, second, third)) => {
                    &&& call_ensures(T1::map_ref, (row@[0],), Ok(first))
                    &&& call_ensures(T2::map_ref, (row@[1],), Ok(second))
                    &&& call_ensures(T3::map_ref, (row@[2],), Ok(third))
                },
                Err(error) => {
                    ||| call_ensures(T1::map_ref, (row@[0],), Err(error))
                    ||| exists|first: T1::ReturnType|
                        #![trigger call_ensures(T1::map_ref, (row@[0],), Ok(first))]
                        {
                            &&& call_ensures(T1::map_ref, (row@[0],), Ok(first))
                            &&& call_ensures(T2::map_ref, (row@[1],), Err(error))
                        }
                    ||| exists|first: T1::ReturnType, second: T2::ReturnType|
                        #![trigger
                            call_ensures(T1::map_ref, (row@[0],), Ok(first)),
                            call_ensures(T2::map_ref, (row@[1],), Ok(second)),
                        ]
                        {
                            &&& call_ensures(T1::map_ref, (row@[0],), Ok(first))
                            &&& call_ensures(T2::map_ref, (row@[1],), Ok(second))
                            &&& call_ensures(T3::map_ref, (row@[2],), Err(error))
                        }
                },
            },
    {
        let first = match T1::map_ref(row[0]) {
            Ok(value) => value,
            Err(error) => {
                return Err(error);
            },
        };
        let second = match T2::map_ref(row[1]) {
            Ok(value) => value,
            Err(error) => {
                return Err(error);
            },
        };
        match T3::map_ref(row[2]) {
            Ok(third) => Ok((first, second, third)),
            Err(error) => Err(error),
        }
    }
}

/// A walk over the rows of a query as plain values.
pub struct RowsView {
    /// The identifiers of the wanted types, in order.
    pub keys: Seq<TypeId>,
    /// The rows of the walk, in the order in which they come: for each
    /// entity found, its components of the wanted types.
    pub rows: Seq<Seq<Component>>,
    /// How many rows have been handed out.
    pub position: nat,
}

/// The components of `found` as values.
pub open spec fn row_of(found: Seq<&Component>) -> Seq<Component> {
    Seq::new(found.len(), |i: int| *found[i])
}

/// A query for the component types that `T` names.
pub struct FnQuery<'a, T> {
    entities: &'a Entities,
    phantom: PhantomData<T>,
}

impl<'a, T> View for FnQuery<'a, T> {
    type V = Table;

    closed spec fn view(&self) -> Table {
        self.entities@
    }
}

impl<'a, T> FnQuery<'a, T> {
    /// The query of `entities` for the types that `T` names.
    pub fn new(entities: &'a Entities) -> (query: FnQuery<'a, T>)
        ensures
            query@ == entities@,
    {
        FnQuery { entities, phantom: PhantomData }
    }
}

impl<'a, T> FnQuery<'a, T> where T: FnQueryContainedTupleType<'a> {
    /// Runs the query and hands out a walk over its rows: one row for every
    /// entity that carries all of the wanted types, in ascending slot
    /// order. There is no row where one of the types is not registered.
    pub fn iter(&self) -> (walk: FnQueryIterator<'a, T>)
        requires
            self@.wf(),
        ensures
            walk.wf(),
            walk@.keys.len() == T::arity(),
            exists|keys: Vec<TypeId>|
                keys@ == walk@.keys && #[trigger] call_ensures(T::keys, (), keys),
            walk@.rows == self@.rows(walk@.keys),
            walk@.position == 0,
    {
        let keys = T::keys();
        let rows = collect_rows(self.entities, &keys);
        FnQueryIterator { rows, keys, position: 0, phantom: PhantomData }
    }
}

impl<'a> Query<'a> {
    /// Calls `gen` with a query of the same store for the types that the
    /// parameter of `gen` names.
    pub fn query_fn<F, T>(&self, gen: F) where F: Fn(FnQuery<'a, T>)
        requires
            forall|query: FnQuery<'a, T>|
                query@ == self@.table ==> #[trigger] gen.requires((query,)),
        ensures
            exists|query: FnQuery<'a, T>|
                query@ == self@.table && #[trigger] gen.ensures((query,), ()),
    {
        gen(FnQuery::new(self.entities()))
    }
}

/// The rows of the query of `entities` for the types `keys`.
fn collect_rows<'a>(entities: &'a Entities, keys: &Vec<TypeId>) -> (rows: Vec<Vec<&'a Component>>)
    requires
        entities.wf(),
    ensures
        rows@.len() == entities@.rows(keys@).len(),
        forall|p: int|
            0 <= p < rows@.len() ==> row_of((#[trigger] rows@[p])@) == entities@.rows(keys@)[p],
        forall|p: int| 0 <= p < rows@.len() ==> (#[trigger] rows@[p])@.len() == keys@.len(),
{
    let mut rows: Vec<Vec<&'a Component>> = Vec::new();
    let wanted: usize = keys.len();
    if wanted == 0 {
        return rows;
    }
    let mut query = Query::new(entities);
    let mut i: usize = 0;
    while i < wanted
        invariant
            query.wf(),
            query@.table == entities@,
            wanted == keys@.len(),
            i <= wanted,
            query@.keys == keys@.take(i as int),
            rows@.len() == 0,
        decreases wanted - i,
    {
        match query.with_component_checked(&keys[i]) {
            Ok(_) => {},
            Err(_) => {
                assert(!entities@.registered(keys@[i as int]));
                return rows;
            },
        }
        proof {
            assert(keys@.take(i + 1) =~= keys@.take(i as int).push(keys@[i as int]));
        }
        i += 1;
    }
    proof {
        assert(keys@.take(wanted as int) =~= keys@);
    }
    let found = match query.run_entity() {
        Ok(found) => found,
        Err(_) => {
            return rows;
        },
    };
    let ghost picked = entities@.matching(entities@.mask_over(keys@));
    let n: usize = found.len();
    let mut p: usize = 0;
    assert(as_ints(Seq::new(found@.len(), |i: int| found@[i]@.id)).len() == picked.len());
    while p < n
        invariant
            entities.wf(),
            n == found@.len(),
            n == picked.len(),
            wanted == keys@.len(),
            wanted > 0,
            picked == entities@.matching(entities@.mask_over(keys@)),
            as_ints(Seq::new(found@.len(), |i: int| found@[i]@.id)) == picked,
            forall|i: int| 0 <= i < found@.len() ==> (#[trigger] found@[i])@.table == entities@,
            forall|i: int| 0 <= i < keys@.len() ==> entities@.registered(#[trigger] keys@[i]),
            p <= n,
            rows@.len() == p,
            forall|q: int|
                0 <= q < p ==> row_of((#[trigger] rows@[q])@) == entities@.row(picked[q], keys@),
            forall|q: int| 0 <= q < p ==> (#[trigger] rows@[q])@.len() == keys@.len(),
        decreases n - p,
    {
        let entity = &found[p];
        let ghost slot = picked[p as int];
        proof {
            assert(as_ints(Seq::new(found@.len(), |i: int| found@[i]@.id))[p as int] == slot);
            assert(entity@.id == slot);
        }
        let mut row: Vec<&'a Component> = Vec::new();
        let mut i: usize = 0;
        while i < wanted
            invariant
                entities.wf(),
                entity@.table == entities@,
                entity@.id == slot,
                0 <= p < picked.len(),
                slot == picked[p as int],
                picked == entities@.matching(entities@.mask_over(keys@)),
                wanted == keys@.len(),
                forall|i: int| 0 <= i < keys@.len() ==> entities@.registered(#[trigger] keys@[i]),
                i <= wanted,
                row@.len() == i,
                forall|j: int|
                    0 <= j < i ==> *(#[trigger] row@[j]) == entities@.columns[entities@.index_of(
                        keys@[j],
                    )][slot]->0,
            decreases wanted - i,
        {
            proof {
                entities@.lemma_selected_cells(keys@, i as int, p as int);
            }
            match entity.component(&keys[i]) {
                Ok(component) => {
                    row.push(component);
                },
                Err(_) => {},
            }
            i += 1;
        }
        proof {
            assert(row_of(row@) =~= entities@.row(slot, keys@));
        }
        rows.push(row);
        p += 1;
    }
    proof {
        assert(rows@.len() == entities@.rows(keys@).len());
    }
    rows
}

/// A walk over the rows of a query, borrowing the components of each row
/// as it is reached.
pub struct FnQueryIterator<'a, T> {
    rows: Vec<Vec<&'a Component>>,
    keys: Vec<TypeId>,
    position: usize,
    phantom: PhantomData<T>,
}

impl<'a, T> View for FnQueryIterator<'a, T> {
    type V = RowsView;

    closed spec fn view(&self) -> RowsView {
        RowsView {
            keys: self.keys@,
            rows: Seq::new(self.rows@.len(), |p: int| row_of(self.rows@[p]@)),
            position: self.position as nat,
        }
    }
}

impl<'a, T> FnQueryIterator<'a, T> where T: FnQueryContainedTupleType<'a> {
    /// The walk is well formed: every row holds one component for each
    /// wanted type.
    pub closed spec fn wf(&self) -> bool {
        &&& self.keys@.len() == T::arity()
        &&& forall|p: int|
            0 <= p < self.rows@.len() ==> (#[trigger] self.rows@[p])@.len() == T::arity()
    }

    /// The identifiers of the wanted types, in order.
    pub fn keys(&self) -> (keys: &Vec<TypeId>)
        ensures
            keys@ == self@.keys,
    {
        &self.keys
    }

    /// The number of rows of the walk, handed out or not.
    pub fn len(&self) -> (len: usize)
        ensures
            len == self@.rows.len(),
    {
        self.rows.len()
    }

    /// The row that the walk hands out next, if it has not ended.
    pub fn peek(&self) -> (row: Option<&Vec<&'a Component>>)
        ensures
            match row {
                Some(row) => self@.position < self@.rows.len() && row_of(row@)
                    == self@.rows[self@.position as int],
                None => self@.position >= self@.rows.len(),
            },
    {
        if self.position < self.rows.len() {
            Some(&self.rows[self.position])
        } else {
            None
        }
    }

    /// Borrows the components of the next row and moves on, or gives `None`
    /// at the end of the walk. A borrow that is turned down is given as
    /// the error; the walk moves on all the same.
    pub fn next(&mut self) -> (borrowed: Option<Result<T::ReturnType, AccessError>>)
        requires
            old(self).wf(),
        ensures
            final(self).wf(),
            final(self)@.keys == old(self)@.keys,
            final(self)@.rows == old(self)@.rows,
            borrowed is Some <==> old(self)@.position < old(self)@.rows.len(),
            borrowed is Some ==> exists|row: &Vec<&'a Component>|
                #![trigger call_ensures(T::map_row, (row,), borrowed->0)]
                row_of(row@) == old(self)@.rows[old(self)@.position as int] && call_ensures(
                    T::map_row,
                    (row,),
                    borrowed->0,
                ),
            final(self)@.position == if borrowed is Some {
                old(self)@.position + 1
            } else {
                old(self)@.position
            },
    {
        if self.position < self.rows.len() {
            let at: usize = self.position;
            self.position = at + 1;
            let row = &self.rows[at];
            let answer = T::map_row(row);
            let borrowed = Some(answer);
            proof {
                assert(row_of(row@) == old(self)@.rows[at as int]);
                assert(call_ensures(T::map_row, (row,), borrowed->0));
            }
            borrowed
        } else {
            None
        }
    }
}

} // verus!
