use sceller::prelude::Component;
use sceller::prelude::World;
use std::any::TypeId;

struct Location(pub i32, pub i32);
struct Size(pub i8);

struct Unique;

#[derive(Debug, PartialEq, Eq, Clone, Copy)]
struct Position(i32, i32);
#[derive(Debug, PartialEq, Eq, Clone, Copy)]
struct Health(u16);
#[derive(Debug)]
struct Enemy;

struct PlayerResource(String);

#[derive(Debug, PartialEq)]
struct SizeResource(f32);

#[derive(Debug)]
struct Foo(u8);
#[derive(Debug)]
struct Bar(u32);

#[derive(Debug)]
struct Egg(char);

#[derive(Debug, PartialEq)]
struct CoolResource {
    eggs: i32,
    egg_name: String,
}

fn location() -> TypeId {
    TypeId::of::<Location>()
}

fn size() -> TypeId {
    TypeId::of::<Size>()
}

#[test]
fn delete_entity() {
    let mut world = World::new();

    world.spawn()
        .insert_checked(Component::new(Location(12, 12))).unwrap()
        .insert_checked(Component::new(Size(-2))).unwrap();

    world.spawn()
        .insert_checked(Component::new(Location(1049, 20))).unwrap()
        .insert_checked(Component::new(Size(19))).unwrap();

    world.delete_entity(0).unwrap(); // delete 1st entity

    let query = world.query().with_component_checked(&location()).unwrap().run();

    // assert that the query is only one component
    assert_eq!(query.len(), 1);
    // assert that there is only 1 'Location' components in the system
    assert_eq!(query[0].len(), 1);

    {
        let loc = query[0][0].get_ref::<Location>().unwrap();

        // assert that now the first location is 1049 (the second component)
        assert_eq!(loc.0, 1049);
    }

    world.spawn().insert_checked(Component::new(Location(0, 0))).unwrap();

    let query = world.query().with_component_checked(&location()).unwrap().run();

    // assert that there are two location components in the system
    assert_eq!(query[0].len(), 2);

    let loc = query[0][0].get_ref::<Location>().unwrap();

    // assert that the second location is now the new one
    assert_eq!(loc.0, 0);
}

#[test]
fn entities_create_entity() {
    let pos = Location(2, 12);

    let mut world = World::new();

    world.spawn()
        .insert_checked(Component::new(pos)).unwrap()
        .insert_checked(Component::new(Size(-2))).unwrap();
}

#[test]
fn entities_test_queries() {
    let mut world = World::new();

    let mut indexes = Vec::new();

    world.spawn()
        .insert_checked(Component::new(Location(12, 12))).unwrap()
        .insert_checked(Component::new(Size(-2))).unwrap();

    world.spawn()
        .insert_checked(Component::new(Location(1049, 20))).unwrap()
        .insert_checked(Component::new(Size(19))).unwrap();

    world.spawn()
        .insert_checked(Component::new(Location(0, 0))).unwrap()
        .insert_checked(Component::new(Size(10))).unwrap();

    let query = world.query()
        .with_component_checked(&location()).unwrap()
        .with_component_checked(&size()).unwrap()
        .read_indexes_to_buf(&mut indexes)
        .run();

    let locations = &query[0];
    let sizes = &query[1];

    assert_eq!(locations.len(), sizes.len());

    let first1 = locations[0].get_ref::<Location>().unwrap();
    assert_eq!(first1.0, 12);

    let first2 = sizes[0].get_ref::<Size>().unwrap();
    assert_eq!(first2.0, -2);
}

#[test]
fn delete_component_from_ent() {
    let mut world = World::new();

    world.register_component(location());
    world.register_component(size());

    world.spawn()
        .insert_checked(Component::new(Location(6, 6))).unwrap()
        .insert_checked(Component::new(Size(10))).unwrap();

    world.spawn()
        .insert_checked(Component::new(Location(9, 2))).unwrap()
        .insert_checked(Component::new(Size(2))).unwrap();

    world.delete_component_from_ent_checked(&location(), 0).unwrap();

    let mut indexes = Vec::new();
    let query = world.query()
        .with_component_checked(&location()).unwrap()
        .with_component_checked(&size()).unwrap()
        .read_indexes_to_buf(&mut indexes)
        .run();

    assert_eq!(query[0].len(), 1);
}

#[test]
fn add_component_to_ent() {
    let mut world = World::new();

    world.register_component(location());
    world.register_component(size());

    world.spawn()
        .insert_checked(Component::new(Location(6, 6))).unwrap()
        .insert_checked(Component::new(Size(10))).unwrap();

    world.spawn()
        .insert_checked(Component::new(Location(9, 2))).unwrap()
        .insert_checked(Component::new(Size(2))).unwrap();

    world.insert_component_into_entity(Component::new(Unique), 0);

    let query = world.query()
        .with_component_checked(&location()).unwrap()
        .with_component_checked(&TypeId::of::<Unique>()).unwrap()
        .run();

    // the is one 'Unique' struct
    assert_eq!(query[1].len(), 1);
}

#[test]
fn delete_component() {
    let mut world = World::new();

    world.register_component(location());
    world.register_component(size());

    world.spawn()
        .insert(Component::new(Location(6, 6)))
        .insert(Component::new(Size(10)));

    world.spawn()
        .insert(Component::new(Location(9, 2)))
        .insert(Component::new(Size(2)));

    world.unregister_component_checked(&location()).unwrap();

    let mut query = world.query();
    let query = query.with_component_checked(&location());

    assert!(query.is_err());
}

fn size_world() -> World {
    let mut world = World::new();

    world.insert_resource(Component::new(SizeResource(12.0)));
    world
}

#[test]
fn create_and_get_immutable_resource() {
    let mut world = World::new();

    world.insert_resource(Component::new(SizeResource(12.0)));

    let retrieved_size = world.get_resource::<SizeResource>().unwrap();
    assert_eq!(retrieved_size.0, 12.0);
}

#[test]
fn get_resources_mutably() {
    let mut world = World::new();

    world.insert_resource(Component::new(SizeResource(12.0)));

    {
        let mut fps = world.get_resource_mut::<SizeResource>().unwrap();
        fps.0 += 12.0;
    }

    let fps = world.get_resource::<SizeResource>().unwrap();
    assert_eq!(fps.0, 24.0);
}

#[test]
fn resource_test_delete_resource() {
    let mut world = size_world();

    world.delete_resource::<SizeResource>().unwrap();

    assert!(world.get_resource::<SizeResource>().is_err());
}

fn health_world() -> World {
    let mut world = World::new();

    world.spawn().insert_checked(Component::new(Position(0, 0))).unwrap().insert_checked(Component::new(Health(15))).unwrap();
    world.spawn().insert_checked(Component::new(Position(12, 10))).unwrap().insert_checked(Component::new(Health(6))).unwrap();
    world.spawn().insert_checked(Component::new(Position(6, 6))).unwrap().insert_checked(Component::new(Health(12))).unwrap().insert_checked(Component::new(Enemy)).unwrap();

    world.insert_resource(Component::new(PlayerResource("Loafoflead".to_owned())));

    world
}

#[test]
fn auto_querys() {
    let world = health_world();

    let query = world.query();
    let auto = query.auto::<Health>();

    assert_eq!(auto.len(), 3);

    let mut iter = auto.into_iter();

    // the walk goes through the slots in ascending order
    assert_eq!(iter.next().unwrap().unwrap().0, 15);
    assert_eq!(iter.next().unwrap().unwrap().0, 6);
    assert_eq!(iter.next().unwrap().unwrap().0, 12);
    assert!(iter.next().is_none());

    assert_eq!(world.get_resource::<PlayerResource>().unwrap().0, "Loafoflead");
}

fn egg_world() -> World {
    let mut world = World::new();

    world.spawn()
        .insert_checked(Component::new(Foo(255))).unwrap()
        .insert_checked(Component::new(Bar(16000))).unwrap();

    world.spawn()
        .insert_checked(Component::new(Foo(9))).unwrap()
        .insert_checked(Component::new(Bar(100))).unwrap()
        .insert_checked(Component::new(Egg('g'))).unwrap();

    world.spawn()
        .insert_checked(Component::new(Foo(25))).unwrap()
        .insert_checked(Component::new(Bar(190))).unwrap();

    world.insert_resource(Component::new(CoolResource { eggs: 0, egg_name: String::from("Hello") }));

    world
}

#[test]
fn trait_implementations_test_queries() {
    let world = egg_world();

    let mut query = world.query();
    let query = query
        .with_component_checked(&TypeId::of::<Foo>()).unwrap()
        .with_component_checked(&TypeId::of::<Bar>()).unwrap()
        .run_entity().unwrap();

    let mut foos: Vec<u8> = Vec::new();
    let mut bars: Vec<u32> = Vec::new();
    for ent in query {
        if let Ok(foo) = ent.get_component::<Foo>() { println!("foo {:?}", foo); foos.push(foo.0); }
        if let Ok(bar) = ent.get_component::<Bar>() { println!("bar {:?}", bar); bars.push(bar.0); }
        assert_eq!(ent.get_component::<Egg>().is_ok(), ent.id == 1);
    }
    assert_eq!(foos, vec![255, 9, 25]);
    assert_eq!(bars, vec![16000, 100, 190]);
}

#[test]
fn test_resources() {
    let world = egg_world();

    let cool = world.get_resource::<CoolResource>().unwrap();

    assert_eq!(*cool, CoolResource {
        eggs: 0, egg_name: String::from("Hello")
    });
}

#[test]
fn two_entities_two_columns() {
    #[derive(Debug, PartialEq)]
    struct Tag(&'static str);

    let mut world = World::new();
    world.spawn()
        .insert(Component::new(Health(100)))
        .insert(Component::new(Tag("hi")));
    world.spawn()
        .insert(Component::new(Health(50)))
        .insert(Component::new(Tag("hey")));

    let columns = world.query()
        .with_component(&TypeId::of::<Health>())
        .with_component(&TypeId::of::<Tag>())
        .run();

    assert_eq!(columns.len(), 2);
    assert_eq!(columns[0].len(), 2);
    assert_eq!(columns[1].len(), 2);
    let healths: Vec<u16> = columns[0].iter().map(|c| c.get_ref::<Health>().unwrap().0).collect();
    assert_eq!(healths, vec![100, 50]);
    let tags: Vec<&str> = columns[1].iter().map(|c| c.get_ref::<Tag>().unwrap().0).collect();
    assert_eq!(tags, vec!["hi", "hey"]);
}

#[test]
fn world_forwards_to_its_stores() {
    let mut world = World::default();
    world.spawn().insert(Component::new(Health(1)));
    world.spawn().insert(Component::new(Health(2)));

    assert_eq!(world.entities().entity_count(), 2);
    world.delete_component_from_ent(&TypeId::of::<Health>(), 0);
    assert_eq!(world.entities().entity_mask(0), Some(0));
    assert_eq!(world.entities().entity_mask(1), Some(1));

    world.insert_component_into_entity_checked(Component::new(Enemy), 1).unwrap();
    assert_eq!(world.entities().entity_mask(1), Some(3));
    assert!(world.insert_component_into_entity_checked(Component::new(Enemy), 5).is_err());

    world.unregister_component(&TypeId::of::<Health>());
    assert_eq!(world.entities().entity_mask(1), Some(2));
    assert!(world.unregister_component_checked(&TypeId::of::<Health>()).is_err());
    assert!(world.delete_component_from_ent_checked(&TypeId::of::<Health>(), 0).is_err());
    assert!(world.delete_entity(2).is_err());

    world.insert_resource(Component::new(Health(9)));
    assert_eq!(world.resources().get_ref::<Health>().unwrap().0, 9);
    assert_eq!(world.delete_resource::<Health>(), Ok(Health(9)));
    assert!(world.resources().get(&TypeId::of::<Health>()).is_none());
}

#[test]
fn test_debug() {
    let world = egg_world();

    let short = format!("{:?}", world);
    assert!(short.contains("World"));

    let world = egg_world();

    let long = format!("{:#?}", world);
    assert!(long.contains("resources"));
    assert!(long.contains("entities"));
    println!("{}", long);
}
