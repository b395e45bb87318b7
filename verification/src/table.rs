//! The mathematical model of the store.
//!
//! A [`Table`] is what a store is, as plain sequences: the registry of
//! component types, one column of cells per registered type, and one
//! presence mask per entity slot. Every operation of the store is a
//! function from tables to tables here, with a lemma that says what it
//! keeps and what it changes.

use crate::bits::bit;
use crate::bits::covers;
use crate::bits::has_bit;
use crate::bits::lemma_bit_no_change;
use crate::bits::lemma_bit_nonzero;
use crate::bits::lemma_clear_bit;
use crate::bits::lemma_covers_bit;
use crate::bits::lemma_covers_part;
use crate::bits::lemma_covers_union;
use crate::bits::lemma_empty_mask;
use crate::bits::lemma_set_bit;
use crate::bits::lemma_union_empty;
use crate::component::Component;
use crate::entities::query::QueryError;
use crate::entities::ComponentError;
use std::any::TypeId;
use vstd::prelude::*;

verus! {

/// The store as plain values.
pub struct Table {
    /// The registry, in registration order: `types[k]` is the type that was
    /// handed bit `k`, or `None` once that type has been deregistered. A bit
    /// is never handed out twice.
    pub types: Seq<Option<TypeId>>,
    /// `columns[k]` is the column of the type with bit `k`: one cell per
    /// entity slot. The column of a deregistered type is empty.
    pub columns: Seq<Seq<Option<Component>>>,
    /// One presence mask per entity slot.
    pub masks: Seq<u128>,
    /// The slot that `insert` writes to: the one the last `create_entity`
    /// chose.
    pub cursor: nat,
}

/// The first slot whose mask is empty, or `masks.len()` if there is none.
pub open spec fn first_free(masks: Seq<u128>) -> int
    decreases masks.len(),
{
    if masks.len() == 0 {
        0
    } else if masks[0] == 0 {
        0
    } else {
        1 + first_free(masks.drop_first())
    }
}

/// The slots whose mask covers `wanted`, in ascending order.
pub open spec fn select(masks: Seq<u128>, wanted: u128) -> Seq<int>
    decreases masks.len(),
{
    if masks.len() == 0 {
        Seq::empty()
    } else {
        let before = select(masks.drop_last(), wanted);
        if covers(masks.last(), wanted) {
            before.push(masks.len() - 1)
        } else {
            before
        }
    }
}

/// The cells of `column` at the slots `picks`, in the order of `picks`.
pub open spec fn gather(column: Seq<Option<Component>>, picks: Seq<int>) -> Seq<Component> {
    Seq::new(picks.len(), |i: int| column[picks[i]]->0)
}

/// The filled cells of `column` at the slots whose mask has bit `k`, in
/// ascending slot order.
pub open spec fn present(column: Seq<Option<Component>>, masks: Seq<u128>, k: int) -> Seq<
    Component,
>
    decreases masks.len(),
{
    if masks.len() == 0 {
        Seq::empty()
    } else {
        let before = present(column, masks.drop_last(), k);
        let slot = masks.len() - 1;
        if has_bit(masks[slot], k) && column[slot] is Some {
            before.push(column[slot]->0)
        } else {
            before
        }
    }
}

impl Table {
    /// The store with no types and no entities.
    pub open spec fn empty() -> Table {
        Table { types: Seq::empty(), columns: Seq::empty(), masks: Seq::empty(), cursor: 0 }
    }

    /// What holds of every store:
    /// one column per bit handed out, at most 128 of them; the column of a
    /// registered type has one cell per entity slot and that of a
    /// deregistered type none; no type is registered twice; and wherever a
    /// bit is set in an entity's mask, the bit belongs to a registered type
    /// and the entity's cell in that type's column is filled.
    pub open spec fn wf(self) -> bool {
        &&& self.types.len() == self.columns.len()
        &&& self.types.len() <= 128
        &&& forall|k: int|
            0 <= k < self.types.len() ==> (#[trigger] self.columns[k]).len() == (if self.types[k]
                is Some {
                self.masks.len()
            } else {
                0
            })
        &&& forall|j: int, k: int|
            0 <= j < k < self.types.len() && (#[trigger] self.types[j]) is Some
                ==> self.types[j] != #[trigger] self.types[k]
        &&& forall|e: int, k: int|
            0 <= e < self.masks.len() && 0 <= k < 128 && #[trigger] has_bit(self.masks[e], k) ==> {
                &&& k < self.types.len()
                &&& self.types[k] is Some
                &&& self.columns[k][e] is Some
            }
    }

    /// Masks and columns agree in both directions: for every registered
    /// type, an entity's cell is filled exactly when its bit is set.
    pub open spec fn aligned(self) -> bool {
        forall|e: int, k: int|
            0 <= e < self.masks.len() && 0 <= k < self.types.len() && self.types[k] is Some ==> ((
            #[trigger] self.columns[k][e]) is Some <==> has_bit(self.masks[e], k))
    }

    /// Whether `key` is registered.
    pub open spec fn registered(self, key: TypeId) -> bool {
        self.types.contains(Some(key))
    }

    /// The bit position of a registered type.
    pub open spec fn index_of(self, key: TypeId) -> int {
        self.types.index_of(Some(key))
    }

    /// The mask of a registered type: its one bit.
    pub open spec fn mask_of(self, key: TypeId) -> u128 {
        bit(self.index_of(key))
    }

    /// Whether the entity in `slot` carries a component of type `key`.
    pub open spec fn has(self, slot: int, key: TypeId) -> bool {
        &&& self.registered(key)
        &&& 0 <= slot < self.masks.len()
        &&& has_bit(self.masks[slot], self.index_of(key))
    }

    /// The component of type `key` that the entity in `slot` carries, if any.
    pub open spec fn component(self, slot: int, key: TypeId) -> Option<Component> {
        if self.has(slot, key) {
            self.columns[self.index_of(key)][slot]
        } else {
            None
        }
    }

    /// What a look-up of the component of type `key` of the entity in
    /// `slot` gives: the component, or the reason there is none.
    pub open spec fn lookup(self, slot: int, key: TypeId) -> Result<Component, QueryError> {
        if !self.registered(key) {
            Err(QueryError::UnregisteredComponentError)
        } else if !(0 <= slot < self.masks.len()) {
            Err(QueryError::OutOfBoundsIdError)
        } else if !self.has(slot, key) {
            Err(QueryError::NonexistentComponentDataError)
        } else {
            Ok(self.columns[self.index_of(key)][slot]->0)
        }
    }

    /// The union of the masks of `keys`.
    pub open spec fn mask_over(self, keys: Seq<TypeId>) -> u128
        decreases keys.len(),
    {
        if keys.len() == 0 {
            0
        } else {
            self.mask_over(keys.drop_last()) | self.mask_of(keys.last())
        }
    }

    /// The slots of the entities that match `wanted`, ascending.
    pub open spec fn matching(self, wanted: u128) -> Seq<int> {
        select(self.masks, wanted)
    }

    /// One column of a query's result: the components of type `key` of the
    /// entities that match `wanted`, in ascending slot order.
    pub open spec fn query_column(self, key: TypeId, wanted: u128) -> Seq<Component> {
        gather(self.columns[self.index_of(key)], self.matching(wanted))
    }

    /// One row of a query's result: the components of the types `keys`, in
    /// that order, of the entity in `slot`.
    pub open spec fn row(self, slot: int, keys: Seq<TypeId>) -> Seq<Component> {
        Seq::new(keys.len(), |i: int| self.columns[self.index_of(keys[i])][slot]->0)
    }

    /// A query's result by rows: one row for every entity that carries all
    /// of the types `keys`, in ascending slot order. Empty where no type is
    /// asked for or one of them is not registered.
    pub open spec fn rows(self, keys: Seq<TypeId>) -> Seq<Seq<Component>> {
        if keys.len() > 0 && forall|i: int|
            0 <= i < keys.len() ==> self.registered(#[trigger] keys[i]) {
            Seq::new(
                self.matching(self.mask_over(keys)).len(),
                |p: int| self.row(self.matching(self.mask_over(keys))[p], keys),
            )
        } else {
            Seq::empty()
        }
    }

    /// The result of the single-type fast path: the components of type
    /// `key` of the entities that carry one, in ascending slot order. Empty
    /// for a type that is not registered.
    pub open spec fn all_of(self, key: TypeId) -> Seq<Component> {
        if self.registered(key) {
            present(self.columns[self.index_of(key)], self.masks, self.index_of(key))
        } else {
            Seq::empty()
        }
    }

    /// Registers `key` under the next bit, with a column of empty cells, one
    /// per entity slot. Changes nothing if `key` is registered already or
    /// all 128 bits have been handed out.
    pub open spec fn register(self, key: TypeId) -> Table {
        if self.registered(key) || self.types.len() >= 128 {
            self
        } else {
            Table {
                types: self.types.push(Some(key)),
                columns: self.columns.push(Seq::new(self.masks.len(), |e: int| None::<Component>)),
                ..self
            }
        }
    }

    /// Makes room for a new entity and points the cursor at it: the first
    /// slot with an empty mask if there is one, else a new slot at the end,
    /// with an empty cell in every column.
    pub open spec fn spawn(self) -> Table {
        let slot = first_free(self.masks);
        if slot < self.masks.len() {
            Table { cursor: slot as nat, ..self }
        } else {
            Table {
                columns: Seq::new(
                    self.columns.len(),
                    |k: int|
                        if self.types[k] is Some {
                            self.columns[k].push(None)
                        } else {
                            self.columns[k]
                        },
                ),
                masks: self.masks.push(0),
                cursor: self.masks.len(),
                ..self
            }
        }
    }

    /// Writes `component` into `slot` of its type's column and sets its bit
    /// in the slot's mask. Meant for a registered type and a slot in range.
    pub open spec fn put(self, slot: int, component: Component) -> Table {
        let k = self.index_of(component.type_key());
        Table {
            columns: self.columns.update(k, self.columns[k].update(slot, Some(component))),
            masks: self.masks.update(slot, self.masks[slot] | bit(k)),
            ..self
        }
    }

    /// Whether `component` can go into `slot`: its type is registered or can
    /// still be, and the slot exists.
    pub open spec fn accepts(self, slot: int, component: Component) -> bool {
        &&& self.registered(component.type_key()) || self.types.len() < 128
        &&& 0 <= slot < self.masks.len()
    }

    /// What inserting `component` into `slot` makes of the store. Where the
    /// component can go in, its type is registered if it was not and the
    /// component is written; where it cannot, the store stays as it is.
    pub open spec fn insert(self, slot: int, component: Component) -> Table {
        if self.accepts(slot, component) {
            self.register(component.type_key()).put(slot, component)
        } else {
            self
        }
    }

    /// Whether inserting `component` into `slot` succeeds, and the error if
    /// it does not.
    pub open spec fn insert_outcome(self, slot: int, component: Component) -> Result<
        (),
        ComponentError,
    > {
        if !self.registered(component.type_key()) && self.types.len() >= 128 {
            Err(ComponentError::AutomaticRegistrationError)
        } else if !(0 <= slot < self.masks.len()) {
            Err(ComponentError::NonexistentEntity)
        } else {
            Ok(())
        }
    }

    /// The cell of the entity in `slot` in the column of `key`, whether or
    /// not the entity's mask says that it carries the component. `None`
    /// where the type is not registered or there is no such slot.
    pub open spec fn cell(self, slot: int, key: TypeId) -> Option<Component> {
        if self.registered(key) && 0 <= slot < self.masks.len() {
            self.columns[self.index_of(key)][slot]
        } else {
            None
        }
    }

    /// The entities that a query for the types `keys` finds, in ascending
    /// slot order: those that carry all of the types. A query for no type
    /// finds nothing.
    pub open spec fn found(self, keys: Seq<TypeId>) -> Seq<int> {
        if keys.len() == 0 {
            Seq::empty()
        } else {
            self.matching(self.mask_over(keys))
        }
    }

    /// Whether the component type `key` can be taken from the entity in
    /// `index`, and the error if it cannot: the type has to be registered
    /// and the slot has to exist.
    pub open spec fn slot_outcome(self, key: TypeId, index: usize) -> Result<(), ComponentError> {
        if !self.registered(key) {
            Err(ComponentError::UnregisteredComponentError)
        } else if index >= self.masks.len() {
            Err(
                ComponentError::IndexOutOfBoundsError {
                    expected: self.masks.len() as usize,
                    found: index,
                },
            )
        } else {
            Ok(())
        }
    }

    /// Clears the bit of `key` in the mask of `slot`. The cell stays as it
    /// is. Meant for a registered type and a slot in range.
    pub open spec fn clear(self, slot: int, key: TypeId) -> Table {
        Table {
            masks: self.masks.update(slot, self.masks[slot] & !bit(self.index_of(key))),
            ..self
        }
    }

    /// Deregisters `key`: its column is dropped and its bit cleared in every
    /// mask. The bit is not handed out again. Meant for a registered type.
    pub open spec fn unregister(self, key: TypeId) -> Table {
        let k = self.index_of(key);
        Table {
            types: self.types.update(k, None),
            columns: self.columns.update(k, Seq::empty()),
            masks: Seq::new(self.masks.len(), |e: int| self.masks[e] & !bit(k)),
            ..self
        }
    }

    /// Empties the mask of `slot`. The cells stay as they are. Meant for a
    /// slot in range.
    pub open spec fn despawn(self, slot: int) -> Table {
        Table { masks: self.masks.update(slot, 0), ..self }
    }
}


/// `first_free` is the least slot with an empty mask.
pub proof fn lemma_first_free(masks: Seq<u128>)
    ensures
        0 <= first_free(masks) <= masks.len(),
        forall|i: int| 0 <= i < first_free(masks) ==> masks[i] != 0,
        first_free(masks) < masks.len() ==> masks[first_free(masks)] == 0,
    decreases masks.len(),
{
    if masks.len() != 0 && masks[0] != 0 {
        let rest = masks.drop_first();
        lemma_first_free(rest);
        assert forall|i: int| 0 <= i < first_free(masks) implies masks[i] != 0 by {
            if i > 0 {
                assert(masks[i] == rest[i - 1]);
            }
        }
    }
}

/// `select` of a prefix that is one longer: the new slot is added at the
/// end if its mask covers `wanted`.
pub proof fn lemma_select_step(masks: Seq<u128>, wanted: u128, n: int)
    requires
        0 <= n < masks.len(),
    ensures
        select(masks.take(n + 1), wanted) == if covers(masks[n], wanted) {
            select(masks.take(n), wanted).push(n)
        } else {
            select(masks.take(n), wanted)
        },
{
    assert(masks.take(n + 1).drop_last() =~= masks.take(n));
}

/// `present` of a prefix that is one longer.
pub proof fn lemma_present_step(
    column: Seq<Option<Component>>,
    masks: Seq<u128>,
    k: int,
    n: int,
)
    requires
        0 <= n < masks.len(),
    ensures
        present(column, masks.take(n + 1), k) == if has_bit(masks[n], k) && column[n] is Some {
            present(column, masks.take(n), k).push(column[n]->0)
        } else {
            present(column, masks.take(n), k)
        },
{
    assert(masks.take(n + 1).drop_last() =~= masks.take(n));
}

/// An entity is selected exactly when it exists and its mask covers every
/// wanted bit; the selected slots come in ascending order, each once.
pub proof fn lemma_select(masks: Seq<u128>, wanted: u128)
    ensures
        forall|e: int|
            select(masks, wanted).contains(e) <==> 0 <= e < masks.len() && covers(
                #[trigger] masks[e],
                wanted,
            ),
        forall|i: int, j: int|
            0 <= i < j < select(masks, wanted).len() ==> select(masks, wanted)[i] < select(
                masks,
                wanted,
            )[j],
        forall|i: int|
            0 <= i < select(masks, wanted).len() ==> 0 <= #[trigger] select(masks, wanted)[i]
                < masks.len(),
        select(masks, wanted).len() <= masks.len(),
    decreases masks.len(),
{
    let picked = select(masks, wanted);
    if masks.len() == 0 {
        assert forall|e: int| picked.contains(e) <==> 0 <= e < masks.len() && covers(
            #[trigger] masks[e],
            wanted,
        ) by {}
    } else {
        let shorter = masks.drop_last();
        let before = select(shorter, wanted);
        let last = masks.len() - 1;
        lemma_select(shorter, wanted);
        assert forall|e: int| picked.contains(e) <==> 0 <= e < masks.len() && covers(
            #[trigger] masks[e],
            wanted,
        ) by {
            if 0 <= e < last {
                assert(shorter[e] == masks[e]);
            }
            if picked.contains(e) {
                let i = choose|i: int| 0 <= i < picked.len() && picked[i] == e;
                if i < before.len() {
                    assert(before[i] == e);
                    assert(before.contains(e));
                }
            }
            if 0 <= e < masks.len() && covers(masks[e], wanted) {
                if e == last {
                    assert(picked[picked.len() - 1] == e);
                } else {
                    assert(before.contains(e));
                    let i = choose|i: int| 0 <= i < before.len() && before[i] == e;
                    assert(picked[i] == e);
                }
            }
        }
    }
}

impl Table {
    /// A registered type sits at its bit position in the registry.
    pub proof fn lemma_registered(self, key: TypeId)
        requires
            self.registered(key),
        ensures
            0 <= self.index_of(key) < self.types.len(),
            self.types[self.index_of(key)] == Some(key),
    {
    }

    /// The bit position of a type is the one place where the registry
    /// holds it.
    pub proof fn lemma_index_of(self, key: TypeId, k: int)
        requires
            self.wf(),
            0 <= k < self.types.len(),
            self.types[k] == Some(key),
        ensures
            self.registered(key),
            self.index_of(key) == k,
    {
        let found = self.index_of(key);
        assert(self.types[found] == Some(key));
        if found < k {
            assert(self.types[found] != self.types[k]);
        } else if k < found {
            assert(self.types[k] != self.types[found]);
        }
    }

    /// Registration keeps the store well formed and leaves every type that
    /// was registered where it was. Where there was room, the new type gets
    /// the next bit.
    pub proof fn lemma_register(self, key: TypeId)
        requires
            self.wf(),
        ensures
            self.register(key).wf(),
            self.aligned() ==> self.register(key).aligned(),
            self.registered(key) || self.types.len() < 128 ==> self.register(key).registered(key),
            !self.registered(key) && self.types.len() < 128 ==> self.register(key).index_of(key)
                == self.types.len(),
            !self.registered(key) && self.types.len() >= 128 ==> !self.register(key).registered(
                key,
            ),
            forall|other: TypeId|
                self.registered(other) ==> #[trigger] self.register(key).registered(other)
                    && self.register(key).index_of(other) == self.index_of(other),
            forall|other: TypeId|
                other != key ==> (#[trigger] self.register(key).registered(other)
                    <==> self.registered(other)),
            forall|e: int, other: TypeId|
                0 <= e < self.masks.len() ==> #[trigger] self.register(key).component(e, other)
                    == self.component(e, other),
    {
        let after = self.register(key);
        if !self.registered(key) && self.types.len() < 128 {
            let n = self.types.len() as int;
            assert(after.types[n] == Some(key));
            assert forall|e: int, k: int|
                0 <= e < after.masks.len() && 0 <= k < 128 && #[trigger] has_bit(
                    after.masks[e],
                    k,
                ) implies {
                &&& k < after.types.len()
                &&& after.types[k] is Some
                &&& after.columns[k][e] is Some
            } by {
                assert(has_bit(self.masks[e], k));
                assert(k < n);
                assert(after.columns[k] == self.columns[k]);
            }
            assert forall|j: int, k: int|
                0 <= j < k < after.types.len() && (#[trigger] after.types[j]) is Some
                    implies after.types[j] != #[trigger] after.types[k] by {
                if k < n {
                    assert(self.types[j] != self.types[k]);
                } else {
                    assert(self.types[j] == after.types[j]);
                    if after.types[j] == Some(key) {
                        assert(self.types.contains(Some(key)));
                    }
                }
            }
            assert(after.wf());
            after.lemma_index_of(key, n);
            assert forall|other: TypeId| self.registered(other) implies #[trigger] after.registered(
                other,
            ) && after.index_of(other) == self.index_of(other) by {
                self.lemma_registered(other);
                after.lemma_index_of(other, self.index_of(other));
            }
            assert forall|other: TypeId| other != key implies (#[trigger] after.registered(other)
                <==> self.registered(other)) by {
                if after.registered(other) {
                    after.lemma_registered(other);
                    let k = after.index_of(other);
                    assert(k < n);
                    assert(self.types[k] == Some(other));
                }
                if self.registered(other) {
                    self.lemma_registered(other);
                    assert(after.types[self.index_of(other)] == Some(other));
                }
            }
            assert forall|e: int, other: TypeId|
                0 <= e < self.masks.len() implies #[trigger] after.component(e, other)
                == self.component(e, other) by {
                if self.registered(other) {
                    self.lemma_registered(other);
                    let k = self.index_of(other);
                    assert(after.columns[k] == self.columns[k]);
                } else if other == key {
                    if has_bit(self.masks[e], n) {
                        assert(n < self.types.len());
                    }
                }
            }
            if self.aligned() {
                assert forall|e: int, k: int|
                    0 <= e < after.masks.len() && 0 <= k < after.types.len()
                        && after.types[k] is Some implies ((#[trigger] after.columns[k][e]) is Some
                    <==> has_bit(after.masks[e], k)) by {
                    if k < n {
                        assert(after.columns[k] == self.columns[k]);
                        assert(self.columns[k][e] is Some <==> has_bit(self.masks[e], k));
                    } else {
                        if has_bit(self.masks[e], k) {
                            assert(k < self.types.len());
                        }
                    }
                }
            }
        }
    }

    /// Inserting a component keeps the store well formed. Where the
    /// component can go in, the entity afterwards carries exactly that
    /// component under its type, and every other component of every entity
    /// is as it was; where it cannot, no component changes.
    pub proof fn lemma_insert(self, slot: int, component: Component)
        requires
            self.wf(),
        ensures
            self.insert(slot, component).wf(),
            self.aligned() ==> self.insert(slot, component).aligned(),
            self.insert_outcome(slot, component) is Ok <==> self.accepts(slot, component),
            self.accepts(slot, component) ==> self.insert(slot, component).component(
                slot,
                component.type_key(),
            ) == Some(component),
            forall|e: int, key: TypeId|
                0 <= e < self.masks.len() && !(self.accepts(slot, component) && e == slot && key
                    == component.type_key()) ==> #[trigger] self.insert(slot, component).component(
                    e,
                    key,
                ) == self.component(e, key),
    {
        let key = component.type_key();
        let registered = self.register(key);
        self.lemma_register(key);
        if self.accepts(slot, component) {
            registered.lemma_put(slot, component);
            let after = self.insert(slot, component);
            assert forall|e: int, other: TypeId|
                0 <= e < self.masks.len() && !(e == slot && other == key)
                    implies #[trigger] after.component(e, other) == self.component(e, other) by {
                assert(registered.put(slot, component).component(e, other) == registered.component(
                    e,
                    other,
                ));
                assert(registered.component(e, other) == self.component(e, other));
            }
        }
    }

    /// Making room for an entity keeps the store well formed. The cursor
    /// then names a slot that exists and whose mask is empty: no component
    /// is visible there.
    pub proof fn lemma_spawn(self)
        requires
            self.wf(),
        ensures
            self.spawn().wf(),
            self.aligned() ==> self.spawn().aligned(),
            self.spawn().cursor < self.spawn().masks.len(),
            self.spawn().masks[self.spawn().cursor as int] == 0,
            self.spawn().types == self.types,
            forall|key: TypeId| !(#[trigger] self.spawn().has(self.spawn().cursor as int, key)),
    {
        let after = self.spawn();
        let slot = first_free(self.masks);
        lemma_first_free(self.masks);
        if slot >= self.masks.len() {
            let n = self.masks.len() as int;
            assert forall|e: int, k: int|
                0 <= e < after.masks.len() && 0 <= k < 128 && #[trigger] has_bit(
                    after.masks[e],
                    k,
                ) implies {
                &&& k < after.types.len()
                &&& after.types[k] is Some
                &&& after.columns[k][e] is Some
            } by {
                if e == n {
                    lemma_empty_mask(k);
                } else {
                    assert(has_bit(self.masks[e], k));
                    assert(self.columns[k][e] is Some);
                }
            }
            assert forall|k: int| 0 <= k < after.types.len() implies (
            #[trigger] after.columns[k]).len() == (if after.types[k] is Some {
                after.masks.len()
            } else {
                0
            }) by {
                assert(self.columns[k].len() == (if self.types[k] is Some {
                    self.masks.len()
                } else {
                    0
                }));
            }
            if self.aligned() {
                assert forall|e: int, k: int|
                    0 <= e < after.masks.len() && 0 <= k < after.types.len()
                        && after.types[k] is Some implies ((#[trigger] after.columns[k][e]) is Some
                    <==> has_bit(after.masks[e], k)) by {
                    if e == n {
                        lemma_empty_mask(k);
                    } else {
                        assert(self.columns[k][e] is Some <==> has_bit(self.masks[e], k));
                    }
                }
            }
        }
        assert forall|key: TypeId| !(#[trigger] after.has(after.cursor as int, key)) by {
            if after.registered(key) {
                after.lemma_registered(key);
                lemma_empty_mask(after.index_of(key));
            }
        }
    }

    /// Writing a component keeps the store well formed. Afterwards the
    /// entity carries exactly that component under its type; every other
    /// component of every entity is as it was.
    pub proof fn lemma_put(self, slot: int, component: Component)
        requires
            self.wf(),
            self.registered(component.type_key()),
            0 <= slot < self.masks.len(),
        ensures
            self.put(slot, component).wf(),
            self.aligned() ==> self.put(slot, component).aligned(),
            self.put(slot, component).component(slot, component.type_key()) == Some(component),
            forall|e: int, key: TypeId|
                0 <= e < self.masks.len() && (e != slot || key != component.type_key())
                    ==> #[trigger] self.put(slot, component).component(e, key) == self.component(
                    e,
                    key,
                ),
    {
        let after = self.put(slot, component);
        let key = component.type_key();
        let k = self.index_of(key);
        self.lemma_registered(key);
        assert forall|e: int, j: int| 0 <= e < self.masks.len() && 0 <= j < 128 implies (has_bit(
            after.masks[e],
            j,
        ) <==> (e == slot && j == k) || has_bit(self.masks[e], j)) by {
            if e == slot {
                lemma_set_bit(self.masks[slot], k, j);
            }
        }
        assert forall|e: int, j: int|
            0 <= e < after.masks.len() && 0 <= j < 128 && #[trigger] has_bit(
                after.masks[e],
                j,
            ) implies {
            &&& j < after.types.len()
            &&& after.types[j] is Some
            &&& after.columns[j][e] is Some
        } by {
            if !(e == slot && j == k) {
                assert(has_bit(self.masks[e], j));
                assert(self.columns[j][e] is Some);
            }
        }
        assert forall|j: int| 0 <= j < after.types.len() implies (#[trigger] after.columns[j]).len()
            == (if after.types[j] is Some {
            after.masks.len()
        } else {
            0
        }) by {
            assert(self.columns[j].len() == (if self.types[j] is Some {
                self.masks.len()
            } else {
                0
            }));
        }
        if self.aligned() {
            assert forall|e: int, j: int|
                0 <= e < after.masks.len() && 0 <= j < after.types.len()
                    && after.types[j] is Some implies ((#[trigger] after.columns[j][e]) is Some
                <==> has_bit(after.masks[e], j)) by {
                assert(self.columns[j][e] is Some <==> has_bit(self.masks[e], j));
            }
        }
        assert forall|e: int, other: TypeId|
            0 <= e < self.masks.len() && (e != slot || other != key)
                implies #[trigger] after.component(e, other) == self.component(e, other) by {
            if self.registered(other) {
                self.lemma_registered(other);
                let j = self.index_of(other);
                if j == k {
                    assert(self.types[j] == Some(key));
                }
            }
        }
    }

    /// Clearing a component's bit keeps the store well formed. Afterwards
    /// the entity no longer carries a component of that type; every other
    /// component of every entity is as it was.
    pub proof fn lemma_clear(self, slot: int, key: TypeId)
        requires
            self.wf(),
            self.registered(key),
            0 <= slot < self.masks.len(),
        ensures
            self.clear(slot, key).wf(),
            !self.clear(slot, key).has(slot, key),
            !self.has(slot, key) ==> self.clear(slot, key) == self,
            forall|e: int, other: TypeId|
                0 <= e < self.masks.len() && (e != slot || other != key)
                    ==> #[trigger] self.clear(slot, key).component(e, other) == self.component(
                    e,
                    other,
                ),
    {
        let after = self.clear(slot, key);
        let k = self.index_of(key);
        self.lemma_registered(key);
        assert forall|e: int, j: int| 0 <= e < self.masks.len() && 0 <= j < 128 implies (has_bit(
            after.masks[e],
            j,
        ) <==> !(e == slot && j == k) && has_bit(self.masks[e], j)) by {
            if e == slot {
                lemma_clear_bit(self.masks[slot], k, j);
            }
        }
        assert forall|e: int, j: int|
            0 <= e < after.masks.len() && 0 <= j < 128 && #[trigger] has_bit(
                after.masks[e],
                j,
            ) implies {
            &&& j < after.types.len()
            &&& after.types[j] is Some
            &&& after.columns[j][e] is Some
        } by {
            assert(has_bit(self.masks[e], j));
        }
        if !self.has(slot, key) {
            lemma_bit_no_change(self.masks[slot], k);
            assert(after.masks =~= self.masks);
        }
        assert forall|e: int, other: TypeId|
            0 <= e < self.masks.len() && (e != slot || other != key)
                implies #[trigger] after.component(e, other) == self.component(e, other) by {
            if self.registered(other) {
                self.lemma_registered(other);
                let j = self.index_of(other);
                if j == k {
                    assert(self.types[j] == Some(key));
                }
            }
        }
    }

    /// Deregistering a type keeps the store well formed. The type is then
    /// unknown, no entity carries it, and every component of every other
    /// type is as it was.
    pub proof fn lemma_unregister(self, key: TypeId)
        requires
            self.wf(),
            self.registered(key),
        ensures
            self.unregister(key).wf(),
            self.aligned() ==> self.unregister(key).aligned(),
            !self.unregister(key).registered(key),
            forall|other: TypeId|
                other != key ==> (#[trigger] self.unregister(key).registered(other)
                    <==> self.registered(other)),
            forall|other: TypeId|
                other != key && self.registered(other) ==> #[trigger] self.unregister(key).index_of(
                    other,
                ) == self.index_of(other),
            forall|e: int, other: TypeId|
                0 <= e < self.masks.len() && other != key ==> #[trigger] self.unregister(
                    key,
                ).component(e, other) == self.component(e, other),
    {
        let after = self.unregister(key);
        let k = self.index_of(key);
        self.lemma_registered(key);
        assert forall|e: int, j: int| 0 <= e < self.masks.len() && 0 <= j < 128 implies (has_bit(
            after.masks[e],
            j,
        ) <==> j != k && has_bit(self.masks[e], j)) by {
            lemma_clear_bit(self.masks[e], k, j);
        }
        assert forall|e: int, j: int|
            0 <= e < after.masks.len() && 0 <= j < 128 && #[trigger] has_bit(
                after.masks[e],
                j,
            ) implies {
            &&& j < after.types.len()
            &&& after.types[j] is Some
            &&& after.columns[j][e] is Some
        } by {
            assert(has_bit(self.masks[e], j));
            assert(self.columns[j][e] is Some);
        }
        assert forall|j: int| 0 <= j < after.types.len() implies (#[trigger] after.columns[j]).len()
            == (if after.types[j] is Some {
            after.masks.len()
        } else {
            0
        }) by {
            assert(self.columns[j].len() == (if self.types[j] is Some {
                self.masks.len()
            } else {
                0
            }));
        }
        assert forall|i: int, j: int|
            0 <= i < j < after.types.len() && (#[trigger] after.types[i]) is Some
                implies after.types[i] != #[trigger] after.types[j] by {
            assert(self.types[i] is Some);
            if j != k {
                assert(self.types[i] != self.types[j]);
            }
        }
        assert(after.wf());
        if after.registered(key) {
            after.lemma_registered(key);
            let j = after.index_of(key);
            assert(self.types[j] == Some(key));
            self.lemma_index_of(key, j);
        }
        assert forall|other: TypeId| other != key implies (#[trigger] after.registered(other)
            <==> self.registered(other)) by {
            if after.registered(other) {
                after.lemma_registered(other);
                assert(self.types[after.index_of(other)] == Some(other));
            }
            if self.registered(other) {
                self.lemma_registered(other);
                assert(after.types[self.index_of(other)] == Some(other));
            }
        }
        assert forall|other: TypeId|
            other != key && self.registered(other) implies #[trigger] after.index_of(other)
            == self.index_of(other) by {
            self.lemma_registered(other);
            after.lemma_index_of(other, self.index_of(other));
        }
        assert forall|e: int, other: TypeId|
            0 <= e < self.masks.len() && other != key implies #[trigger] after.component(e, other)
            == self.component(e, other) by {
            if self.registered(other) {
                self.lemma_registered(other);
                let j = self.index_of(other);
                assert(after.index_of(other) == j);
                assert(after.registered(other));
            }
        }
        if self.aligned() {
            assert forall|e: int, j: int|
                0 <= e < after.masks.len() && 0 <= j < after.types.len()
                    && after.types[j] is Some implies ((#[trigger] after.columns[j][e]) is Some
                <==> has_bit(after.masks[e], j)) by {
                assert(self.columns[j][e] is Some <==> has_bit(self.masks[e], j));
            }
        }
    }

    /// Deleting an entity keeps the store well formed. Afterwards the slot
    /// carries no component; every other entity is as it was.
    pub proof fn lemma_despawn(self, slot: int)
        requires
            self.wf(),
            0 <= slot < self.masks.len(),
        ensures
            self.despawn(slot).wf(),
            forall|key: TypeId| !(#[trigger] self.despawn(slot).has(slot, key)),
            forall|e: int, key: TypeId|
                0 <= e < self.masks.len() && e != slot ==> #[trigger] self.despawn(slot).component(
                    e,
                    key,
                ) == self.component(e, key),
    {
        let after = self.despawn(slot);
        assert forall|e: int, j: int|
            0 <= e < after.masks.len() && 0 <= j < 128 && #[trigger] has_bit(
                after.masks[e],
                j,
            ) implies {
            &&& j < after.types.len()
            &&& after.types[j] is Some
            &&& after.columns[j][e] is Some
        } by {
            if e == slot {
                lemma_empty_mask(j);
            } else {
                assert(has_bit(self.masks[e], j));
            }
        }
        assert forall|key: TypeId| !(#[trigger] after.has(slot, key)) by {
            if after.registered(key) {
                after.lemma_registered(key);
                lemma_empty_mask(after.index_of(key));
            }
        }
    }
}

impl Table {
    /// The mask of a list of registered types covers the bit of each of
    /// them, and is empty only for the empty list.
    pub proof fn lemma_mask_over(self, keys: Seq<TypeId>)
        requires
            self.wf(),
            forall|i: int| 0 <= i < keys.len() ==> self.registered(#[trigger] keys[i]),
        ensures
            forall|i: int|
                0 <= i < keys.len() ==> covers(
                    self.mask_over(keys),
                    self.mask_of(#[trigger] keys[i]),
                ),
            self.mask_over(keys) == 0 <==> keys.len() == 0,
        decreases keys.len(),
    {
        if keys.len() > 0 {
            let shorter = keys.drop_last();
            let last = keys.last();
            self.lemma_mask_over(shorter);
            self.lemma_registered(last);
            lemma_bit_nonzero(self.index_of(last));
            lemma_union_empty(self.mask_over(shorter), self.mask_of(last));
            assert forall|i: int| 0 <= i < keys.len() implies covers(
                self.mask_over(keys),
                self.mask_of(#[trigger] keys[i]),
            ) by {
                lemma_covers_part(
                    self.mask_over(shorter),
                    self.mask_of(last),
                    self.mask_of(keys[i]),
                );
                if i < keys.len() - 1 {
                    assert(shorter[i] == keys[i]);
                }
            }
        }
    }

    /// An entity matches a query for the types `keys` exactly when it
    /// carries a component of every one of them.
    pub proof fn lemma_matches_all(self, keys: Seq<TypeId>, slot: int)
        requires
            self.wf(),
            forall|i: int| 0 <= i < keys.len() ==> self.registered(#[trigger] keys[i]),
            0 <= slot < self.masks.len(),
        ensures
            covers(self.masks[slot], self.mask_over(keys)) <==> forall|i: int|
                0 <= i < keys.len() ==> self.has(slot, #[trigger] keys[i]),
        decreases keys.len(),
    {
        let mask = self.masks[slot];
        if keys.len() == 0 {
            lemma_covers_union(mask, 0, 0);
        } else {
            let shorter = keys.drop_last();
            let last = keys.last();
            self.lemma_matches_all(shorter, slot);
            self.lemma_registered(last);
            lemma_covers_union(mask, self.mask_over(shorter), self.mask_of(last));
            lemma_covers_bit(mask, self.index_of(last));
            if covers(mask, self.mask_over(keys)) {
                assert forall|i: int| 0 <= i < keys.len() implies self.has(
                    slot,
                    #[trigger] keys[i],
                ) by {
                    if i < keys.len() - 1 {
                        assert(shorter[i] == keys[i]);
                    }
                }
            }
            if forall|i: int| 0 <= i < keys.len() ==> self.has(slot, #[trigger] keys[i]) {
                assert forall|i: int| 0 <= i < shorter.len() implies self.has(
                    slot,
                    #[trigger] shorter[i],
                ) by {
                    assert(shorter[i] == keys[i]);
                }
                assert(self.has(slot, keys[keys.len() - 1]));
            }
        }
    }

    /// Every entity that a query for registered types selects carries a
    /// filled cell in the column of each of those types.
    pub proof fn lemma_selected_cells(self, keys: Seq<TypeId>, i: int, pick: int)
        requires
            self.wf(),
            forall|i: int| 0 <= i < keys.len() ==> self.registered(#[trigger] keys[i]),
            0 <= i < keys.len(),
            0 <= pick < self.matching(self.mask_over(keys)).len(),
        ensures
            0 <= self.matching(self.mask_over(keys))[pick] < self.masks.len(),
            self.has(self.matching(self.mask_over(keys))[pick], keys[i]),
            self.columns[self.index_of(keys[i])][self.matching(self.mask_over(keys))[pick]] is Some,
    {
        let wanted = self.mask_over(keys);
        let picked = select(self.masks, wanted);
        let slot = picked[pick];
        lemma_select(self.masks, wanted);
        assert(picked.contains(slot));
        self.lemma_matches_all(keys, slot);
        self.lemma_registered(keys[i]);
    }
}

} // verus!
