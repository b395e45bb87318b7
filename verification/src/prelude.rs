//! The items that most users of the library need, in one place.

pub use crate::component::AccessError;
pub use crate::component::Component;
pub use crate::entities::auto_query::AutoQuery;
pub use crate::entities::auto_query::AutoQueryIntoIterator;
pub use crate::entities::auto_query::AutoQueryMut;
pub use crate::entities::auto_query::AutoQueryMutIntoIterator;
pub use crate::entities::fn_query::FnQuery;
pub use crate::entities::fn_query::FnQueryContainedIndividualType;
pub use crate::entities::fn_query::FnQueryContainedTupleType;
pub use crate::entities::fn_query::FnQueryIterator;
pub use crate::entities::query::Query;
pub use crate::entities::query::QueryError;
pub use crate::entities::query_entity::QueryEntity;
pub use crate::entities::ComponentError;
pub use crate::entities::Entities;
pub use crate::resources::Resources;
pub use crate::resources::ResourcesError;
pub use crate::system::IntoSystem;
pub use crate::system::Res;
pub use crate::system::ResMut;
pub use crate::system::SystemParams;
pub use crate::world::World;
pub use std::cell::Ref;
pub use std::cell::RefMut;
