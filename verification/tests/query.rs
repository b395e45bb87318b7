use sceller::prelude::AccessError;
use sceller::prelude::Component;
use sceller::prelude::Entities;
use sceller::prelude::Query;
use sceller::prelude::QueryEntity;
use sceller::prelude::QueryError;
use sceller::prelude::Ref;
use sceller::prelude::RefMut;
use std::any::TypeId;

#[derive(Debug)]
struct Component1(pub i8);

#[derive(Debug)]
struct Component2(pub char);

struct Bar(u16);

fn one() -> TypeId {
    TypeId::of::<Component1>()
}

fn two() -> TypeId {
    TypeId::of::<Component2>()
}

fn init_entities() -> Entities {
    let mut ents = Entities::default();

    // add in a dummy entity
    ents.create_entity()
        .insert(Component::new(Component1(-5)))
        .insert(Component::new(Component2('r')));

    // add in a second dummy entity
    ents.create_entity()
        .insert(Component::new(Component1(120)))
        .insert(Component::new(Component2('b')));

    ents
}

fn one_entity() -> Entities {
    let mut ents = Entities::default();

    // add in a dummy entity
    ents.create_entity()
        .insert(Component::new(Component1(-5)))
        .insert(Component::new(Component2('r')));

    ents
}

#[test]
fn auto_query_test() {
    let ents = one_entity();

    let query = Query::new(&ents);
    let auto = query.auto::<Component1>();

    let mut seen: Vec<i8> = Vec::new();
    let mut walk = auto.into_iter();
    while let Some(e) = walk.next() {
        seen.push(e.unwrap().0);
    }
    assert_eq!(seen, vec![-5]);
}

#[test]
fn query_for_entity_mut() {
    let ents = one_entity();

    let mut query = Query::new(&ents);

    let entities: Vec<QueryEntity> = query.with_component_checked(&one()).unwrap().run_entity().unwrap();

    assert_eq!(entities.len(), 1);

    for e in entities {
        assert_eq!(e.id, 0);
        let mut component1: RefMut<Component1> = e.get_component_mut::<Component1>().unwrap();
        component1.0 += 1;
        assert_eq!(component1.0, -4);
    }
}

#[test]
fn query_for_entity_ref() {
    let ents = one_entity();

    let mut query = Query::new(&ents);

    let entities: Vec<QueryEntity> = query.with_component_checked(&one()).unwrap().run_entity().unwrap();

    assert_eq!(entities.len(), 1);

    for e in entities {
        assert_eq!(e.id, 0);
        let component1: Ref<Component1> = e.get_component::<Component1>().unwrap();
        assert_eq!(component1.0, -5);
    }
}

#[test]
fn query_mask_updating() {
    let ents = init_entities();

    let mut query = Query::new(&ents);
    query.with_component_checked(&one()).unwrap()
        .with_component_checked(&two()).unwrap();

    assert_eq!(query.mask(), 3);
    assert_eq!(TypeId::of::<Component1>(), query.type_ids()[0]);
    assert_eq!(TypeId::of::<Component2>(), query.type_ids()[1]);
}

#[test]
fn run_query() {
    let ents = init_entities();

    let mut indexes = Vec::new();

    let mut query = Query::new(&ents);
    query.with_component_checked(&one()).unwrap()
        .with_component_checked(&two()).unwrap()
        .read_indexes_to_buf(&mut indexes);

    let query_res = query.run();
    let n1s = &query_res[0];
    let n2s = &query_res[1];

    assert_eq!(n1s.len(), n2s.len());
    assert_eq!(n1s.len(), indexes.len());
    assert_eq!(n1s.len(), 2);

    let first1 = n1s[0].get_ref::<Component1>().unwrap();
    assert_eq!(first1.0, -5);

    let first2 = n2s[0].get_ref::<Component2>().unwrap();
    assert_eq!(first2.0, 'r');

    let second1 = n1s[1].get_ref::<Component1>().unwrap();
    assert_eq!(second1.0, 120);

    let second2 = n2s[1].get_ref::<Component2>().unwrap();
    assert_eq!(second2.0, 'b');
}

#[test]
fn query_without_types_is_empty() {
    let ents = init_entities();

    let mut query = Query::new(&ents);
    assert_eq!(query.mask(), 0);
    assert!(query.run().is_empty());
    assert!(query.run_entity().unwrap().is_empty());

    // a query for no type finds nothing, in every shape
    let mut indexes = vec![9];
    query.read_indexes_to_buf(&mut indexes);
    assert!(indexes.is_empty());

    let empty = Entities::default();
    let mut query = Query::new(&empty);
    assert!(query.run().is_empty());
    assert!(query.run_entity().unwrap().is_empty());
    query.read_indexes_to_buf(&mut indexes);
    assert!(indexes.is_empty());
}

#[test]
fn query_for_unknown_type_is_an_error() {
    let ents = init_entities();

    let mut query = Query::new(&ents);
    let added = query.with_component_checked(&TypeId::of::<Bar>());
    assert_eq!(added.err(), Some(QueryError::UnregisteredComponentError));
    assert_eq!(query.mask(), 0);
    assert!(query.type_ids().is_empty());
}

#[test]
fn registered_type_without_instances_gives_an_empty_column() {
    let mut ents = Entities::default();
    ents.register_component(TypeId::of::<Bar>());
    ents.create_entity().insert(Component::new(Component1(1)));

    let mut query = Query::new(&ents);
    let columns = query.with_component(&TypeId::of::<Bar>()).run();
    assert_eq!(columns.len(), 1);
    assert_eq!(columns[0].len(), 0);

    let found = Query::new(&ents).with_component(&TypeId::of::<Bar>()).run_entity().unwrap();
    assert!(found.is_empty());
}

#[test]
fn query_wants_every_type() {
    let mut ents = init_entities();
    ents.create_entity().insert(Component::new(Component1(7)));
    ents.create_entity().insert(Component::new(Component2('z')));
    ents.create_entity()
        .insert(Component::new(Component2('q')))
        .insert(Component::new(Bar(3)))
        .insert(Component::new(Component1(9)));

    let mut indexes = Vec::new();
    let mut query = Query::new(&ents);
    let columns = query
        .with_component(&two())
        .with_component(&one())
        .read_indexes_to_buf(&mut indexes)
        .run();

    assert_eq!(query.mask(), 3);
    assert_eq!(indexes, vec![0, 1, 4]);
    assert_eq!(columns.len(), 2);
    // columns come in the order in which the types were asked for
    let letters: Vec<char> = columns[0].iter().map(|c| c.get_ref::<Component2>().unwrap().0).collect();
    let numbers: Vec<i8> = columns[1].iter().map(|c| c.get_ref::<Component1>().unwrap().0).collect();
    assert_eq!(letters, vec!['r', 'b', 'q']);
    assert_eq!(numbers, vec![-5, 120, 9]);

    let mut only_one = Query::new(&ents);
    only_one.with_component(&one()).read_indexes_to_buf(&mut indexes);
    assert_eq!(indexes, vec![0, 1, 2, 4]);

    let found = only_one.run_entity().unwrap();
    let ids: Vec<usize> = found.iter().map(|e| e.id).collect();
    assert_eq!(ids, vec![0, 1, 2, 4]);
}

#[test]
fn deleted_entities_and_components_are_not_found() {
    let mut ents = init_entities();
    ents.create_entity()
        .insert(Component::new(Component1(3)))
        .insert(Component::new(Component2('c')));

    ents.delete_entity_by_id(0).unwrap();
    ents.delete_component_by_entity_id(&two(), 1);

    let mut both = Query::new(&ents);
    let columns = both.with_component(&one()).with_component(&two()).run();
    assert_eq!(columns[0].len(), 1);
    assert_eq!(columns[0][0].get_ref::<Component1>().unwrap().0, 3);
    assert_eq!(columns[1][0].get_ref::<Component2>().unwrap().0, 'c');

    let mut first = Query::new(&ents);
    let columns = first.with_component(&one()).run();
    let numbers: Vec<i8> = columns[0].iter().map(|c| c.get_ref::<Component1>().unwrap().0).collect();
    assert_eq!(numbers, vec![120, 3]);
}

#[test]
fn entity_cursor_errors() {
    let mut ents = one_entity();
    ents.create_entity().insert(Component::new(Component1(1)));

    let second = QueryEntity::new(1, &ents);
    assert!(second.get_component::<Component1>().is_ok());
    assert_eq!(
        second.get_component::<Component2>().err(),
        Some(QueryError::NonexistentComponentDataError)
    );
    assert_eq!(
        second.get_component::<Bar>().err(),
        Some(QueryError::UnregisteredComponentError)
    );
    assert_eq!(
        second.component(&TypeId::of::<Bar>()).err(),
        Some(QueryError::UnregisteredComponentError)
    );

    let nowhere = QueryEntity::new(2, &ents);
    assert_eq!(
        nowhere.get_component_mut::<Component1>().err(),
        Some(QueryError::OutOfBoundsIdError)
    );
    assert_eq!(nowhere.component(&one()).err(), Some(QueryError::OutOfBoundsIdError));
}

#[test]
fn entity_cursor_does_not_see_deleted_components() {
    let mut ents = one_entity();
    ents.delete_component_by_entity_id(&one(), 0);

    let first = QueryEntity::new(0, &ents);
    assert_eq!(
        first.get_component::<Component1>().err(),
        Some(QueryError::NonexistentComponentDataError)
    );
    assert_eq!(first.get_component::<Component2>().unwrap().0, 'r');
}

#[test]
fn second_exclusive_borrow_is_turned_down() {
    let ents = init_entities();
    let first = QueryEntity::new(0, &ents);
    let second = QueryEntity::new(1, &ents);

    let held = first.get_component_mut::<Component1>().unwrap();
    assert_eq!(
        first.get_component_mut::<Component1>().err(),
        Some(QueryError::Access(AccessError::BorrowConflict))
    );
    assert_eq!(
        first.get_component::<Component1>().err(),
        Some(QueryError::Access(AccessError::BorrowConflict))
    );
    // other cells are not held
    assert!(first.get_component_mut::<Component2>().is_ok());
    assert!(second.get_component_mut::<Component1>().is_ok());
    drop(held);

    let shared = first.get_component::<Component1>().unwrap();
    assert!(first.get_component::<Component1>().is_ok());
    assert_eq!(
        first.get_component_mut::<Component1>().err(),
        Some(QueryError::Access(AccessError::BorrowConflict))
    );
    drop(shared);
    assert!(first.get_component_mut::<Component1>().is_ok());
}

#[test]
fn query_results_share_the_stored_values() {
    let ents = init_entities();
    let mut query = Query::new(&ents);
    let columns = query.with_component(&one()).run();

    columns[0][1].get_mut::<Component1>().unwrap().0 = 77;

    let again = Query::new(&ents).with_component(&one()).run();
    assert_eq!(again[0][1].get_ref::<Component1>().unwrap().0, 77);
    assert_eq!(again[0][0].get_ref::<Component1>().unwrap().0, -5);
    assert_eq!(
        again[0][0].get_ref::<Component2>().err(),
        Some(AccessError::TypeMismatch)
    );
    assert_eq!(again[0][0].key(), one());
}

#[test]
fn auto_query_matches_the_general_query() {
    let mut ents = init_entities();
    ents.create_entity().insert(Component::new(Component2('x')));
    ents.create_entity().insert(Component::new(Component1(4)));
    ents.delete_entity_by_id(1).unwrap();
    ents.delete_component_by_entity_id(&one(), 0);

    let query = Query::new(&ents);
    let auto = query.auto::<Component1>();
    assert_eq!(auto.key(), one());
    assert_eq!(auto.len(), 1);

    let mut fast: Vec<i8> = Vec::new();
    let mut walk = auto.into_iter();
    while let Some(value) = walk.next() {
        fast.push(value.unwrap().0);
    }

    let general = Query::new(&ents).with_component(&one()).run();
    let slow: Vec<i8> = general[0].iter().map(|c| c.get_ref::<Component1>().unwrap().0).collect();
    assert_eq!(fast, slow);
    assert_eq!(fast, vec![4]);

    let letters = query.auto::<Component2>();
    assert_eq!(letters.len(), 2);
    let mut walk = letters.into_iter();
    assert_eq!(walk.peek().unwrap().get_ref::<Component2>().unwrap().0, 'r');
    assert_eq!(walk.next().unwrap().unwrap().0, 'r');
    assert_eq!(walk.next().unwrap().unwrap().0, 'x');
    assert!(walk.next().is_none());
    assert!(walk.peek().is_none());

    assert_eq!(query.auto::<Bar>().len(), 0);
    assert!(query.auto::<Bar>().into_iter().next().is_none());
}

#[test]
fn auto_query_mut_writes_through() {
    let ents = init_entities();
    let query = Query::new(&ents);

    let mut walk = query.auto_mut::<Component1>().into_iter();
    while let Some(value) = walk.next() {
        value.unwrap().0 = 10;
    }

    let mut seen: Vec<i8> = Vec::new();
    let mut walk = query.auto::<Component1>().into_iter();
    while let Some(value) = walk.next() {
        seen.push(value.unwrap().0);
    }
    assert_eq!(seen, vec![10, 10]);

    let mut first = query.auto_mut::<Component1>().into_iter();
    let held = first.next().unwrap().unwrap();
    let mut second = query.auto_mut::<Component1>().into_iter();
    assert_eq!(second.next().unwrap().err(), Some(AccessError::BorrowConflict));
    assert!(second.next().unwrap().is_ok());
    drop(held);
}
