//! An entity-component store: typed records attached to integer-identified
//! entities, found again by the set of types an entity carries.
//!
//! [`entities::Entities`] holds the components and [`entities::query::Query`]
//! finds them: by columns, by entity, for one type
//! ([`entities::auto_query`]) or for the types that a type parameter names
//! ([`entities::fn_query`]). [`resources::Resources`] holds the values that
//! exist once, [`world::World`] puts the two stores behind one front, and
//! [`system`] runs functions on it. Stored values are
//! [`component::Component`]s.
//!
//! What the stores are, as plain mathematical values, is written down in
//! [`table`]; what holds of their operations is stated and proved in
//! [`laws`].

pub mod bits;
pub mod component;
pub mod entities;
pub mod laws;
pub mod prelude;
pub mod resources;
pub mod system;
pub mod table;
pub mod world;
