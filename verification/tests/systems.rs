use sceller::prelude::AccessError;
use sceller::prelude::Component;
use sceller::prelude::Entities;
use sceller::prelude::FnQuery;
use sceller::prelude::Res;
use sceller::prelude::ResMut;
use sceller::prelude::World;
use std::any::TypeId;

#[derive(Debug, PartialEq, Eq, Clone, Copy)]
struct Position(i32, i32);
#[derive(Debug, PartialEq, Eq, Clone, Copy)]
struct Health(u16);
#[derive(Debug)]
struct Enemy;

struct PlayerResource(String);

struct Missing;

fn init_world() -> World {
    let mut world = World::new();

    world.spawn().insert_checked(Component::new(Position(0, 0))).unwrap().insert_checked(Component::new(Health(15))).unwrap();
    world.spawn().insert_checked(Component::new(Position(12, 10))).unwrap().insert_checked(Component::new(Health(6))).unwrap();
    world.spawn().insert_checked(Component::new(Position(6, 6))).unwrap().insert_checked(Component::new(Health(12))).unwrap().insert_checked(Component::new(Enemy)).unwrap();

    world.insert_resource(Component::new(PlayerResource("Loafoflead".to_owned())));

    world
}

#[test]
fn test_fn_query() {
    let world = init_world();

    let query = world.query();

    query.query_fn(list_healths);
}

// the rows come in ascending slot order
fn list_healths(hps: FnQuery<&Health>) {
    let mut iter = hps.iter();

    assert_eq!(iter.next().unwrap().unwrap().0, 15);
    assert_eq!(iter.next().unwrap().unwrap().0, 6);
    assert_eq!(iter.next().unwrap().unwrap().0, 12);
    assert!(iter.next().is_none());
}

#[test]
fn test_mut_fn_query() {
    let world = init_world();

    let query = world.query();

    query.query_fn(list_healths);
    query.query_fn(edit_healths);
    query.query_fn(list_new_healths);
}

fn edit_healths(hps: FnQuery<&mut Health>) {
    let mut iter = hps.iter();
    while let Some(i) = iter.next() {
        i.unwrap().0 += 1;
    }
}

fn list_new_healths(hps: FnQuery<&Health>) {
    let mut iter = hps.iter();

    assert_eq!(iter.next().unwrap().unwrap().0, 16);
    assert_eq!(iter.next().unwrap().unwrap().0, 7);
    assert_eq!(iter.next().unwrap().unwrap().0, 13);
}

#[test]
fn test_tuple_fn_query() {
    let world = init_world();

    let query = world.query();

    query.query_fn(list_healths_and_poses);
    query.query_fn(one_mut_and_one_not);
    query.query_fn(two_mut);
    query.query_fn(make_sure);

    query.query_fn(test_intoiter);
}

fn list_healths_and_poses(query: FnQuery<(&Health, &Position)>) {
    let mut iter = query.iter();

    let (hp, pos) = iter.next().unwrap().unwrap();
    assert_eq!(*hp, Health(15));
    assert_eq!(*pos, Position(0, 0));

    let (hp, pos) = iter.next().unwrap().unwrap();
    assert_eq!(*hp, Health(6));
    assert_eq!(*pos, Position(12, 10));

    let (hp, pos) = iter.next().unwrap().unwrap();
    assert_eq!(*hp, Health(12));
    assert_eq!(*pos, Position(6, 6));
}

fn one_mut_and_one_not(query: FnQuery<(&mut Health, &Position)>) {
    let mut iter = query.iter();
    while let Some(row) = iter.next() {
        let (mut h, _) = row.unwrap();
        h.0 += 1;
    }
}

fn two_mut(query: FnQuery<(&mut Health, &mut Position)>) {
    let mut iter = query.iter();
    while let Some(row) = iter.next() {
        let (mut h, mut pos) = row.unwrap();
        h.0 += 1;
        pos.1 = 3;
    }
}

fn make_sure(query: FnQuery<(&Health, &Position)>) {
    let mut iter = query.iter();

    let (hp, pos) = iter.next().unwrap().unwrap();
    assert_eq!(*hp, Health(17));
    assert_eq!(*pos, Position(0, 3));

    let (hp, pos) = iter.next().unwrap().unwrap();
    assert_eq!(*hp, Health(8));
    assert_eq!(*pos, Position(12, 3));

    let (hp, pos) = iter.next().unwrap().unwrap();
    assert_eq!(*hp, Health(14));
    assert_eq!(*pos, Position(6, 3));
}

fn test_intoiter(query: FnQuery<(&Health, &Position, &mut Enemy)>) {
    let mut iter = query.iter();
    assert_eq!(iter.len(), 1);
    while let Some(q) = iter.next() {
        let q = q.unwrap();
        println!("{}", q.0.0);
        assert_eq!(q.0.0, 14);
    }
}

#[test]
fn test_systems() {
    let world = init_world();

    world.run_system(test);
    world.run_system(test2);
    world.run_system(assure_test2);
}

fn test(res: Res<PlayerResource>, qry: FnQuery<(&Health, &Position)>) {
    assert_eq!(res.get().unwrap().0, String::from("Loafoflead"));

    let mut iter = qry.iter();

    let thing = iter.next().unwrap().unwrap();
    assert_eq!(thing.0.0, 15);
    assert_eq!(*thing.1, Position(0, 0));

    let thing = iter.next().unwrap().unwrap();
    assert_eq!(thing.0.0, 6);
    assert_eq!(*thing.1, Position(12, 10));

    let thing = iter.next().unwrap().unwrap();
    assert_eq!(thing.0.0, 12);
    assert_eq!(*thing.1, Position(6, 6));
}

fn test2(_qr: FnQuery<&mut Health>, resmut: ResMut<PlayerResource>) {
    resmut.get().unwrap().0 = "Hi".to_owned();
}

fn assure_test2(res: Res<PlayerResource>) {
    assert_eq!(res.get().unwrap().0, "Hi".to_owned());
}

#[test]
fn systems_of_three_to_five_parameters() {
    let world = init_world();

    world.run_system(
        |a: Res<PlayerResource>, b: FnQuery<&Enemy>, c: FnQuery<(&Health, &Enemy)>| {
            assert_eq!(a.get().unwrap().0, "Loafoflead");
            assert_eq!(b.iter().len(), 1);
            assert_eq!(c.iter().len(), 1);
        },
    );
    world.run_system(
        |a: Res<PlayerResource>, b: Res<Missing>, c: FnQuery<&Health>, d: FnQuery<&Position>| {
            assert!(a.get().is_ok());
            assert!(b.get().is_err());
            assert_eq!(c.iter().len(), d.iter().len());
        },
    );
    world.run_system(
        |a: ResMut<PlayerResource>,
         b: Res<PlayerResource>,
         c: FnQuery<&Health>,
         d: FnQuery<&Missing>,
         e: FnQuery<(&Position, &Health, &Enemy)>| {
            let held = a.get().unwrap();
            assert!(b.get().is_err());
            drop(held);
            assert_eq!(c.iter().len(), 3);
            assert_eq!(d.iter().len(), 0);
            assert_eq!(e.iter().len(), 1);
        },
    );
}

#[test]
fn rows_are_the_columns_of_the_query() {
    let mut ents = Entities::default();
    ents.create_entity()
        .insert(Component::new(Health(1)))
        .insert(Component::new(Position(1, 1)));
    ents.create_entity().insert(Component::new(Health(2)));
    ents.create_entity()
        .insert(Component::new(Position(3, 3)))
        .insert(Component::new(Health(3)));
    ents.create_entity().insert(Component::new(Position(4, 4)));

    let query: FnQuery<(&Position, &Health)> = FnQuery::new(&ents);
    let mut walk = query.iter();
    assert_eq!(walk.keys(), &vec![TypeId::of::<Position>(), TypeId::of::<Health>()]);
    assert_eq!(walk.len(), 2);
    {
        let row = walk.peek().unwrap();
        assert_eq!(row.len(), 2);
        assert_eq!(row[0].key(), TypeId::of::<Position>());
        assert_eq!(row[1].get_ref::<Health>().unwrap().0, 1);
    }

    let mut rows: Vec<(i32, u16)> = Vec::new();
    while let Some(row) = walk.next() {
        let (position, health) = row.unwrap();
        rows.push((position.0, health.0));
    }
    assert!(walk.peek().is_none());
    assert_eq!(rows, vec![(1, 1), (3, 3)]);

    let columns = sceller::prelude::Query::new(&ents)
        .with_component(&TypeId::of::<Position>())
        .with_component(&TypeId::of::<Health>())
        .run();
    for (at, row) in rows.iter().enumerate() {
        assert_eq!(columns[0][at].get_ref::<Position>().unwrap().0, row.0);
        assert_eq!(columns[1][at].get_ref::<Health>().unwrap().0, row.1);
    }
}

#[test]
fn query_for_an_unknown_type_has_no_rows() {
    let world = init_world();
    let ents = world.entities();

    let query: FnQuery<(&Health, &Missing)> = FnQuery::new(ents);
    let mut walk = query.iter();
    assert_eq!(walk.len(), 0);
    assert!(walk.next().is_none());

    let query: FnQuery<&Missing> = FnQuery::new(ents);
    assert!(query.iter().next().is_none());
}

#[test]
fn a_row_that_cannot_be_borrowed_is_an_error() {
    let world = init_world();
    let ents = world.entities();

    let writers: FnQuery<&mut Health> = FnQuery::new(ents);
    let mut held = writers.iter();
    let first = held.next().unwrap().unwrap();

    let readers: FnQuery<(&Position, &Health)> = FnQuery::new(ents);
    let mut walk = readers.iter();
    assert_eq!(walk.next().unwrap().err(), Some(AccessError::BorrowConflict));
    assert!(walk.next().unwrap().is_ok());
    drop(first);

    // the position of the first row was given back when the row failed
    let positions: FnQuery<&mut Position> = FnQuery::new(ents);
    assert!(positions.iter().next().unwrap().is_ok());

    let twice: FnQuery<(&mut Health, &Health)> = FnQuery::new(ents);
    assert_eq!(twice.iter().next().unwrap().err(), Some(AccessError::BorrowConflict));
}
