//! Laws of the store: what holds across its operations, whatever the store
//! and whatever the arguments.
//!
//! Each law is stated over the model of [`crate::table`], which is what the
//! contracts of the executable operations are stated over too: an
//! operation of [`crate::entities::Entities`] leaves the store equal to the
//! table that the operation of the same effect gives here.

use crate::bits::bit;
use crate::bits::covers;
use crate::bits::has_bit;
use crate::bits::lemma_clear_twice;
use crate::bits::lemma_covers_bit;
use crate::bits::lemma_empty_mask;
use crate::bits::lemma_some_bit;
use crate::component::Component;
use crate::table::first_free;
use crate::table::gather;
use crate::table::lemma_first_free;
use crate::table::lemma_present_step;
use crate::table::lemma_select;
use crate::table::lemma_select_step;
use crate::table::present;
use crate::table::select;
use crate::table::Table;
use std::any::TypeId;
use vstd::prelude::*;

verus! {

/// Wherever a bit is set in an entity's mask, the entity's cell in the
/// column of that bit's type is filled: this holds of the empty store and
/// is kept by every operation, for every argument.
pub proof fn law_set_bits_have_cells(table: Table, key: TypeId, slot: int, component: Component)
    requires
        table.wf(),
    ensures
        Table::empty().wf(),
        table.register(key).wf(),
        table.spawn().wf(),
        table.insert(slot, component).wf(),
        table.registered(key) && 0 <= slot < table.masks.len() ==> table.clear(slot, key).wf(),
        table.registered(key) ==> table.unregister(key).wf(),
        0 <= slot < table.masks.len() ==> table.despawn(slot).wf(),
{
    table.lemma_register(key);
    table.lemma_spawn();
    table.lemma_insert(slot, component);
    if table.registered(key) {
        table.lemma_unregister(key);
        if 0 <= slot < table.masks.len() {
            table.lemma_clear(slot, key);
        }
    }
    if 0 <= slot < table.masks.len() {
        table.lemma_despawn(slot);
    }
}

/// Masks and columns stay aligned in both directions under every operation
/// that writes cells or drops columns: from a store in which a cell is
/// filled exactly when its bit is set, registering a type, creating an
/// entity, inserting a component and deregistering a type lead to such a
/// store again.
///
/// The two deletions that only clear bits keep the alignment exactly when
/// they find nothing to delete. Where they do delete, the cell keeps its
/// value while its bit is cleared: the value can no longer be reached, but
/// the cell is not empty.
pub proof fn law_alignment(table: Table, key: TypeId, slot: int, component: Component)
    requires
        table.wf(),
        table.aligned(),
    ensures
        Table::empty().aligned(),
        table.register(key).aligned(),
        table.spawn().aligned(),
        table.insert(slot, component).aligned(),
        table.registered(key) ==> table.unregister(key).aligned(),
        table.registered(key) && 0 <= slot < table.masks.len() ==> (table.clear(
            slot,
            key,
        ).aligned() <==> !table.has(slot, key)),
        0 <= slot < table.masks.len() ==> (table.despawn(slot).aligned() <==> table.masks[slot]
            == 0),
{
    table.lemma_register(key);
    table.lemma_spawn();
    table.lemma_insert(slot, component);
    if table.registered(key) {
        table.lemma_unregister(key);
        if 0 <= slot < table.masks.len() {
            let k = table.index_of(key);
            let after = table.clear(slot, key);
            table.lemma_registered(key);
            table.lemma_clear(slot, key);
            if table.has(slot, key) {
                assert(table.columns[k][slot] is Some);
                assert(after.columns[k][slot] is Some);
                assert(!has_bit(after.masks[slot], k));
            }
        }
    }
    if 0 <= slot < table.masks.len() {
        let after = table.despawn(slot);
        if table.masks[slot] == 0 {
            assert(after.masks =~= table.masks);
        } else {
            let k = lemma_some_bit(table.masks[slot]);
            lemma_empty_mask(k);
            assert(table.columns[k][slot] is Some);
            assert(after.columns[k][slot] is Some);
            assert(!has_bit(after.masks[slot], k));
        }
    }
}

/// The filter of a query is an AND: an entity matches a mask exactly when
/// it exists and its mask holds every bit of that mask. The entities that
/// match come in ascending slot order, each once.
pub proof fn law_and_filter(table: Table, wanted: u128, slot: int)
    ensures
        table.matching(wanted).contains(slot) <==> 0 <= slot < table.masks.len() && covers(
            table.masks[slot],
            wanted,
        ),
        forall|i: int, j: int|
            0 <= i < j < table.matching(wanted).len() ==> table.matching(wanted)[i]
                < table.matching(wanted)[j],
{
    lemma_select(table.masks, wanted);
}

/// A query for registered types finds an entity exactly when the entity
/// carries a component of every wanted type, and it finds the entities in
/// ascending slot order.
///
/// This is said of a query that wants at least one type. A query that wants
/// none finds nothing, though every entity carries all of no types.
pub proof fn law_query_finds_carriers_of_all(table: Table, keys: Seq<TypeId>, slot: int)
    requires
        table.wf(),
        forall|i: int| 0 <= i < keys.len() ==> table.registered(#[trigger] keys[i]),
        keys.len() > 0,
    ensures
        table.found(keys).contains(slot) <==> 0 <= slot < table.masks.len() && forall|i: int|
            0 <= i < keys.len() ==> table.has(slot, #[trigger] keys[i]),
        forall|i: int, j: int|
            0 <= i < j < table.found(keys).len() ==> table.found(keys)[i] < table.found(keys)[j],
        table.found(Seq::<TypeId>::empty()) == Seq::<int>::empty(),
{
    lemma_select(table.masks, table.mask_over(keys));
    if 0 <= slot < table.masks.len() {
        table.lemma_matches_all(keys, slot);
    }
}

/// Taking a component type away from an entity twice leaves the store as
/// taking it away once does: the second removal changes nothing, and it
/// does not set the bit again.
pub proof fn law_removal_is_idempotent(table: Table, slot: int, key: TypeId)
    requires
        table.wf(),
        table.registered(key),
        0 <= slot < table.masks.len(),
    ensures
        table.clear(slot, key).clear(slot, key) == table.clear(slot, key),
        !table.clear(slot, key).clear(slot, key).has(slot, key),
{
    let once = table.clear(slot, key);
    let twice = once.clear(slot, key);
    table.lemma_registered(key);
    table.lemma_clear(slot, key);
    lemma_clear_twice(table.masks[slot], table.index_of(key));
    assert(twice.masks =~= once.masks);
}

/// Registering a type again changes nothing: a registered type keeps its
/// bit, and so does every other type.
pub proof fn law_registration_is_stable(table: Table, key: TypeId, other: TypeId)
    requires
        table.wf(),
    ensures
        table.register(key).register(key) == table.register(key),
        table.registered(key) ==> table.register(key) == table,
        table.registered(other) ==> table.register(key).registered(other) && table.register(
            key,
        ).mask_of(other) == table.mask_of(other),
{
    table.lemma_register(key);
}

/// Inserting is overwriting: a component that is inserted where the entity
/// carries one of the same type already takes its place, and the store is
/// as if only the second had been inserted.
pub proof fn law_insert_overwrites(table: Table, slot: int, first: Component, second: Component)
    requires
        table.wf(),
        table.accepts(slot, first),
        first.type_key() == second.type_key(),
    ensures
        table.insert(slot, first).insert(slot, second) == table.insert(slot, second),
        table.insert(slot, first).insert(slot, first) == table.insert(slot, first),
{
    let key = first.type_key();
    let registered = table.register(key);
    table.lemma_register(key);
    registered.lemma_registered(key);
    let k = registered.index_of(key);
    let mask = registered.masks[slot];
    let added = bit(k);
    assert((mask | added) | added == mask | added) by (bit_vector);
    let once = table.insert(slot, first);
    assert(once.register(key) == once);
    assert(once.accepts(slot, second));
    assert(once.insert(slot, second).masks =~= table.insert(slot, second).masks);
    assert(once.insert(slot, second).columns =~~= table.insert(slot, second).columns);
    assert(once.insert(slot, first).masks =~= once.masks);
    assert(once.insert(slot, first).columns =~~= once.columns);
}

/// A deleted entity's slot is handed out again, and nothing of the deleted
/// entity shows in it.
///
/// After an entity is deleted, creating an entity adds no slot: the cursor
/// goes to the first slot with an empty mask, which is the deleted one
/// unless an earlier slot is free. No component is visible in that slot.
/// After a component is then inserted, the entity carries that component
/// and no other.
pub proof fn law_slot_reuse(table: Table, slot: int, component: Component)
    requires
        table.wf(),
        0 <= slot < table.masks.len(),
    ensures
        ({
            let fresh = table.despawn(slot).spawn();
            let filled = fresh.insert(fresh.cursor as int, component);
            &&& fresh.masks.len() == table.masks.len()
            &&& fresh.cursor <= slot
            &&& (forall|i: int| 0 <= i < slot ==> table.masks[i] != 0) ==> fresh.cursor == slot
            &&& forall|key: TypeId| (#[trigger] fresh.component(fresh.cursor as int, key)) is None
            &&& fresh.accepts(fresh.cursor as int, component) <==> (table.registered(
                component.type_key(),
            ) || table.types.len() < 128)
            &&& fresh.accepts(fresh.cursor as int, component) ==> forall|key: TypeId|
                #[trigger] filled.component(fresh.cursor as int, key) == if key
                    == component.type_key() {
                    Some(component)
                } else {
                    None
                }
        }),
{
    let deleted = table.despawn(slot);
    let fresh = deleted.spawn();
    table.lemma_despawn(slot);
    deleted.lemma_spawn();
    lemma_first_free(deleted.masks);
    let free = first_free(deleted.masks);
    if free > slot {
        assert(deleted.masks[slot] != 0);
    }
    if forall|i: int| 0 <= i < slot ==> table.masks[i] != 0 {
        if free < slot {
            assert(table.masks[free] != 0);
            assert(deleted.masks[free] == table.masks[free]);
        }
    }
    fresh.lemma_insert(fresh.cursor as int, component);
}

/// The single-type fast path gives what the general query gives for that
/// one type: the same components in the same order.
pub proof fn law_fast_path_agrees(table: Table, key: TypeId)
    requires
        table.wf(),
        table.registered(key),
    ensures
        table.mask_over(seq![key]) == table.mask_of(key),
        table.all_of(key) == table.query_column(key, table.mask_over(seq![key])),
{
    let k = table.index_of(key);
    let wanted = table.mask_of(key);
    let cells = table.columns[k];
    table.lemma_registered(key);
    let keys = seq![key];
    assert(keys.last() == key);
    assert(table.mask_over(keys.drop_last()) == 0);
    assert(table.mask_over(keys) == table.mask_over(keys.drop_last()) | table.mask_of(keys.last()));
    assert(0u128 | wanted == wanted) by (bit_vector);
    lemma_fast_path_prefix(table, k, table.masks.len() as int);
    assert(table.masks.take(table.masks.len() as int) =~= table.masks);
}

/// The two shapes of a query's result hold the same components: the result
/// by rows has one row for each position of the columns, and row `p` holds,
/// for each wanted type, what the column of that type holds at position
/// `p`.
pub proof fn law_rows_match_columns(table: Table, keys: Seq<TypeId>, p: int, i: int)
    requires
        table.wf(),
        forall|i: int| 0 <= i < keys.len() ==> table.registered(#[trigger] keys[i]),
        0 <= i < keys.len(),
    ensures
        table.rows(keys).len() == table.query_column(keys[i], table.mask_over(keys)).len(),
        0 <= p < table.rows(keys).len() ==> table.rows(keys)[p].len() == keys.len()
            && table.rows(keys)[p][i] == table.query_column(keys[i], table.mask_over(keys))[p],
{
}

/// The fast path and the general query agree on every prefix of the slots.
proof fn lemma_fast_path_prefix(table: Table, k: int, n: int)
    requires
        table.wf(),
        0 <= k < table.types.len(),
        table.types[k] is Some,
        0 <= n <= table.masks.len(),
    ensures
        present(table.columns[k], table.masks.take(n), k) == gather(
            table.columns[k],
            select(table.masks.take(n), bit(k)),
        ),
    decreases n,
{
    let cells = table.columns[k];
    let wanted = bit(k);
    if n == 0 {
        assert(table.masks.take(0) =~= Seq::<u128>::empty());
        assert(present(cells, table.masks.take(0), k) =~= gather(
            cells,
            select(table.masks.take(0), wanted),
        ));
    } else {
        lemma_fast_path_prefix(table, k, n - 1);
        lemma_present_step(cells, table.masks, k, n - 1);
        lemma_select_step(table.masks, wanted, n - 1);
        lemma_covers_bit(table.masks[n - 1], k);
        if has_bit(table.masks[n - 1], k) {
            assert(cells[n - 1] is Some);
        }
        assert(present(cells, table.masks.take(n), k) =~= gather(
            cells,
            select(table.masks.take(n), wanted),
        ));
    }
}

} // verus!
