use sceller::prelude::Component;
use sceller::prelude::ComponentError;
use sceller::prelude::Entities;
use std::any::TypeId;

#[derive(Debug)]
struct Health(u16);
struct Id(String);
struct Unique;

fn health() -> TypeId {
    TypeId::of::<Health>()
}

fn id() -> TypeId {
    TypeId::of::<Id>()
}

fn unique() -> TypeId {
    TypeId::of::<Unique>()
}

fn two_entities() -> Entities {
    let mut ents = Entities::default();

    ents.create_entity()
        .insert(Component::new(Health(100)))
        .insert(Component::new(Id(String::from("hi"))));

    ents.create_entity()
        .insert(Component::new(Health(50)))
        .insert(Component::new(Id(String::from("hey"))));

    ents
}

#[test]
fn new_entities_fill_deleted_spots() {
    let mut ents = Entities::default();

    ents.create_entity()
        .insert_checked(Component::new(Health(100)))
        .unwrap()
        .insert_checked(Component::new(Id(String::from("hi"))))
        .unwrap();

    ents.create_entity()
        .insert_checked(Component::new(Health(50)))
        .unwrap()
        .insert_checked(Component::new(Id(String::from("hey"))))
        .unwrap();

    ents.delete_entity_by_id(0).unwrap();

    ents.create_entity()
        .insert_checked(Component::new(Health(20)))
        .unwrap();

    assert_eq!(ents.entity_mask(0).unwrap(), 1);

    let hp = ents.component(&health(), 0).unwrap();
    let hp = hp.get_ref::<Health>().unwrap();

    assert_eq!(hp.0, 20);
}

#[test]
fn delete_entities_by_id() {
    let mut ents = Entities::default();

    ents.create_entity()
        .insert_checked(Component::new(Health(100)))
        .unwrap()
        .insert_checked(Component::new(Id(String::from("hi"))))
        .unwrap();

    ents.create_entity()
        .insert_checked(Component::new(Unique))
        .unwrap()
        .insert_checked(Component::new(Health(50)))
        .unwrap()
        .insert_checked(Component::new(Id(String::from("hey"))))
        .unwrap();

    ents.delete_entity_by_id(0).unwrap();

    assert_eq!(ents.entity_mask(0).unwrap(), 0);
}

#[test]
fn register_entities() {
    let mut ents = Entities::default();
    ents.register_component(health());
    ents.register_component(id());

    let hp_component = ents.column_len(&health()).unwrap();

    assert_eq!(hp_component, 0);
}

#[test]
fn bitmask_update_on_register_entities() {
    let mut ents = Entities::default();
    ents.register_component(health());
    ents.register_component(id());

    let hp_component = ents.get_bitmask(&health()).unwrap();

    assert_eq!(hp_component, 1);
}

#[test]
fn mod_create_entity() {
    let mut ents = Entities::default();
    ents.register_component(health());
    ents.register_component(id());

    ents.create_entity();
    let hp = ents.column_len(&health()).unwrap();
    let speed = ents.column_len(&id()).unwrap();

    assert!(hp == speed && hp == 1);
    assert!(ents.cell(&id(), 0).is_none());
    assert!(ents.cell(&health(), 0).is_none());
    assert!(ents.component(&id(), 0).is_none());
    assert!(ents.component(&health(), 0).is_none());
}

#[test]
fn with_component() {
    let mut ents = Entities::default();

    ents.create_entity()
        .insert(Component::new(Health(100)))
        .insert(Component::new(Id(String::from("hi"))));

    ents.create_entity()
        .insert(Component::new(Unique))
        .insert(Component::new(Health(50)))
        .insert(Component::new(Id(String::from("hey"))));

    let wrapped_health = ents.component(&health(), 0).unwrap();
    let borrowed_health = wrapped_health.get_ref::<Health>().unwrap();

    assert_eq!(borrowed_health.0, 100);

    let hp = ents.column_len(&health()).unwrap();
    let speed = ents.column_len(&unique()).unwrap();

    assert!(hp == speed && hp == ents.entity_count());
}

#[test]
fn map_is_updated() {
    let mut ents = Entities::default();

    ents.create_entity()
        .insert(Component::new(Health(100)))
        .insert(Component::new(Id(String::from("hi"))));

    let entity_map = ents.entity_mask(0).unwrap();

    assert_eq!(entity_map, 3);

    ents.create_entity()
        .insert(Component::new(Id(String::from("hi"))));

    let entity_map = ents.entity_mask(1).unwrap();

    assert_eq!(entity_map, 2);
}

#[test]
fn delete_component_by_ent_id() {
    let mut ents = two_entities();

    ents.delete_component_by_entity_id_checked(&health(), 0).unwrap();

    assert_eq!(ents.entity_mask(0).unwrap(), 2);
}

#[test]
fn add_component_by_ent_id() {
    let mut ents = two_entities();

    // first entity will be: ...0000_0011
    // after this operation: ...0000_0111
    ents.insert_component_into_entity_by_id(Component::new(Unique), 0);

    assert_eq!(ents.entity_mask(0).unwrap(), 7);
}

#[test]
fn remove_component() {
    let mut ents = two_entities();

    assert_eq!(ents.entity_mask(0).unwrap(), 3_u128);

    ents.delete_component_checked(&health()).unwrap();

    // a query no longer finds this component
    assert_eq!(ents.entity_mask(0).unwrap(), 2_u128);
}

#[test]
fn double_delete_fix() {
    let mut ents = Entities::default();

    ents.create_entity()
        .insert_checked(Component::new(Health(100)))
        .unwrap()
        .insert_checked(Component::new(Id(String::from("hi"))))
        .unwrap();

    ents.delete_component_by_entity_id_checked(&health(), 0).unwrap();

    // only the 'Id' component is left
    assert_eq!(ents.entity_mask(0).unwrap(), 2);

    ents.delete_component_by_entity_id_checked(&health(), 0).unwrap();

    // the second removal changes nothing
    assert_eq!(ents.entity_mask(0).unwrap(), 2);
}

#[test]
fn registering_twice_keeps_the_bit() {
    let mut ents = Entities::default();
    ents.register_component(health());
    ents.register_component(id());
    ents.register_component(health());

    assert_eq!(ents.get_bitmask(&health()), Some(1));
    assert_eq!(ents.get_bitmask(&id()), Some(2));
    assert_eq!(ents.get_bitmask(&unique()), None);
}

#[test]
fn late_registration_fills_the_column() {
    let mut ents = Entities::default();
    ents.create_entity().insert(Component::new(Health(1)));
    ents.create_entity().insert(Component::new(Health(2)));
    ents.register_component(unique());

    assert_eq!(ents.column_len(&unique()), Some(2));
    assert_eq!(ents.column_len(&health()), Some(2));
    assert!(ents.component(&unique(), 0).is_none());
    assert_eq!(ents.entity_mask(0), Some(1));
    assert_eq!(ents.entity_mask(1), Some(1));
}

#[test]
fn insert_overwrites() {
    let mut ents = Entities::default();
    ents.create_entity()
        .insert(Component::new(Health(1)))
        .insert(Component::new(Health(2)));

    assert_eq!(ents.entity_count(), 1);
    assert_eq!(ents.entity_mask(0), Some(1));
    let hp = ents.component(&health(), 0).unwrap();
    assert_eq!(hp.get_ref::<Health>().unwrap().0, 2);
}

#[test]
fn insert_without_entity_is_an_error() {
    let mut ents = Entities::default();

    let inserted = ents.insert_checked(Component::new(Health(1)));
    assert_eq!(inserted.err(), Some(ComponentError::NonexistentEntity));

    let inserted = ents.insert_component_into_entity_by_id_checked(Component::new(Id(String::new())), 4);
    assert_eq!(inserted, Err(ComponentError::NonexistentEntity));

    // an insert that fails leaves the store as it was
    assert_eq!(ents.get_bitmask(&health()), None);
    assert_eq!(ents.get_bitmask(&id()), None);
    assert_eq!(ents.entity_count(), 0);

    ents.create_entity().insert(Component::new(Health(1)));
    let inserted = ents.insert_component_into_entity_by_id_checked(Component::new(Id(String::new())), 1);
    assert_eq!(inserted, Err(ComponentError::NonexistentEntity));
    assert_eq!(ents.get_bitmask(&health()), Some(1));
    assert_eq!(ents.get_bitmask(&id()), None);
    assert_eq!(ents.entity_mask(0), Some(1));
}

#[test]
fn unknown_type_and_slot_are_errors() {
    let mut ents = two_entities();

    assert_eq!(
        ents.delete_component_by_entity_id_checked(&unique(), 0),
        Err(ComponentError::UnregisteredComponentError)
    );
    assert_eq!(
        ents.delete_component_by_entity_id_checked(&health(), 2),
        Err(ComponentError::IndexOutOfBoundsError { expected: 2, found: 2 })
    );
    assert_eq!(
        ents.delete_component_checked(&unique()),
        Err(ComponentError::UnregisteredComponentError)
    );
    assert_eq!(
        ents.delete_entity_by_id(7),
        Err(ComponentError::IndexOutOfBoundsError { expected: 2, found: 7 })
    );
    assert_eq!(ents.entity_mask(0), Some(3));
    assert_eq!(ents.entity_mask(1), Some(3));
    assert_eq!(ents.entity_mask(2), None);
}

#[test]
fn deleted_component_is_not_visible() {
    let mut ents = two_entities();

    ents.delete_component_by_entity_id(&health(), 1);

    assert!(ents.component(&health(), 1).is_none());
    assert!(ents.component(&id(), 1).is_some());
    assert!(ents.component(&health(), 0).is_some());
    assert_eq!(ents.entity_mask(1), Some(2));

    // the value stays in its cell until it is overwritten
    assert_eq!(ents.cell(&health(), 1).unwrap().get_ref::<Health>().unwrap().0, 50);
    assert!(ents.cell(&health(), 2).is_none());
    assert!(ents.cell(&unique(), 0).is_none());
    ents.delete_entity_by_id(0).unwrap();
    assert!(ents.component(&id(), 0).is_none());
    assert_eq!(ents.cell(&id(), 0).unwrap().get_ref::<Id>().unwrap().0, "hi");
}

#[test]
fn deregistered_type_gets_a_new_bit() {
    let mut ents = two_entities();

    ents.delete_component(&health());
    assert_eq!(ents.get_bitmask(&health()), None);
    assert_eq!(ents.column_len(&health()), None);
    assert_eq!(ents.entity_mask(0), Some(2));
    assert_eq!(ents.entity_mask(1), Some(2));

    ents.register_component(unique());
    ents.register_component(health());
    assert_eq!(ents.get_bitmask(&id()), Some(2));
    assert_eq!(ents.get_bitmask(&unique()), Some(4));
    assert_eq!(ents.get_bitmask(&health()), Some(8));
    assert_eq!(ents.column_len(&health()), Some(2));
    assert!(ents.component(&health(), 0).is_none());
}

#[test]
fn create_entity_reuses_the_first_free_slot() {
    let mut ents = Entities::default();
    ents.create_entity().insert(Component::new(Health(1)));
    ents.create_entity().insert(Component::new(Health(2)));
    ents.create_entity().insert(Component::new(Health(3)));
    assert_eq!(ents.cursor(), 2);

    ents.delete_entity_by_id(2).unwrap();
    ents.delete_entity_by_id(1).unwrap();

    ents.create_entity();
    assert_eq!(ents.cursor(), 1);
    assert_eq!(ents.entity_count(), 3);
    // nothing of the deleted entity shows in the slot
    assert!(ents.component(&health(), 1).is_none());

    ents.insert(Component::new(Id(String::from("new"))));
    assert_eq!(ents.entity_mask(1), Some(2));
    assert!(ents.component(&health(), 1).is_none());
    let name = ents.component(&id(), 1).unwrap();
    assert_eq!(name.get_ref::<Id>().unwrap().0, "new");
}

fn one<T: 'static>(keys: &mut Vec<TypeId>) {
    keys.push(TypeId::of::<T>());
}

fn two<T: 'static>(keys: &mut Vec<TypeId>) {
    one::<(T, u8)>(keys);
    one::<(T, i8)>(keys);
}

fn four<T: 'static>(keys: &mut Vec<TypeId>) {
    two::<(T, u8)>(keys);
    two::<(T, i8)>(keys);
}

fn eight<T: 'static>(keys: &mut Vec<TypeId>) {
    four::<(T, u8)>(keys);
    four::<(T, i8)>(keys);
}

fn sixteen<T: 'static>(keys: &mut Vec<TypeId>) {
    eight::<(T, u8)>(keys);
    eight::<(T, i8)>(keys);
}

fn thirty_two<T: 'static>(keys: &mut Vec<TypeId>) {
    sixteen::<(T, u8)>(keys);
    sixteen::<(T, i8)>(keys);
}

fn sixty_four<T: 'static>(keys: &mut Vec<TypeId>) {
    thirty_two::<(T, u8)>(keys);
    thirty_two::<(T, i8)>(keys);
}

/// The identifiers of 128 different types.
fn many_types() -> Vec<TypeId> {
    let mut keys: Vec<TypeId> = Vec::new();
    sixty_four::<u8>(&mut keys);
    sixty_four::<i8>(&mut keys);
    keys
}

#[test]
fn registry_holds_128_types() {
    let keys = many_types();
    assert_eq!(keys.len(), 128);

    let mut ents = Entities::default();
    ents.create_entity();
    for key in &keys {
        ents.register_component(*key);
    }
    assert_eq!(ents.get_bitmask(&keys[0]), Some(1));
    assert_eq!(ents.get_bitmask(&keys[1]), Some(2));
    assert_eq!(ents.get_bitmask(&keys[127]), Some(1u128 << 127));

    // the 129th type finds no bit
    ents.register_component(unique());
    assert_eq!(ents.get_bitmask(&unique()), None);

    let inserted = ents.insert_checked(Component::new(Unique));
    assert_eq!(inserted.err(), Some(ComponentError::AutomaticRegistrationError));
    assert_eq!(ents.entity_mask(0), Some(0));

    // a registered type can still be inserted
    let first = ((((((1u8, 1u8), 1u8), 1u8), 1u8), 1u8), 1u8);
    ents.insert_component_into_entity_by_id_checked(Component::new(first), 0)
        .unwrap();
    assert_eq!(ents.entity_mask(0), Some(1));
}

/// Whether the mask of `slot` has the bit of `key`.
fn bit_is_set(ents: &Entities, slot: usize, key: &TypeId) -> bool {
    let mask = ents.entity_mask(slot).unwrap();
    match ents.get_bitmask(key) {
        Some(bit) => mask & bit == bit,
        None => false,
    }
}

/// A component shows exactly where its bit is set, for every slot and type.
fn masks_agree_with_components(ents: &Entities) {
    for slot in 0..ents.entity_count() {
        for key in [health(), id(), unique()] {
            assert_eq!(
                ents.component(&key, slot).is_some(),
                bit_is_set(ents, slot, &key)
            );
        }
    }
    for key in [health(), id(), unique()] {
        match ents.column_len(&key) {
            Some(len) => assert_eq!(len, ents.entity_count()),
            None => assert_eq!(ents.get_bitmask(&key), None),
        }
    }
}

#[test]
fn masks_and_columns_stay_aligned() {
    let mut ents = Entities::default();
    masks_agree_with_components(&ents);

    ents.create_entity();
    masks_agree_with_components(&ents);
    ents.insert(Component::new(Health(1)));
    masks_agree_with_components(&ents);
    ents.register_component(unique());
    masks_agree_with_components(&ents);
    ents.create_entity()
        .insert(Component::new(Id(String::from("a"))))
        .insert(Component::new(Health(2)));
    masks_agree_with_components(&ents);
    ents.insert_component_into_entity_by_id(Component::new(Unique), 0);
    masks_agree_with_components(&ents);
    assert_eq!(ents.entity_mask(0), Some(0b011));
    assert_eq!(ents.entity_mask(1), Some(0b101));

    ents.delete_component_by_entity_id(&health(), 1);
    masks_agree_with_components(&ents);
    ents.delete_component_by_entity_id(&health(), 1);
    masks_agree_with_components(&ents);
    assert_eq!(ents.entity_mask(1), Some(0b100));

    ents.delete_entity_by_id(0).unwrap();
    masks_agree_with_components(&ents);
    ents.delete_component(&id());
    masks_agree_with_components(&ents);
    assert_eq!(ents.entity_mask(0), Some(0));
    assert_eq!(ents.entity_mask(1), Some(0));

    ents.create_entity().insert(Component::new(Id(String::from("b"))));
    masks_agree_with_components(&ents);
    assert_eq!(ents.cursor(), 0);
    assert_eq!(ents.entity_mask(0), Some(0b1000));
    assert_eq!(ents.entity_count(), 2);
}
