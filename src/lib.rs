//! In-memory relational model of public transit data: arena collections
//! addressed by typed indices, relations between them built from foreign
//! keys or by composition, and a validated model that wires them together.

pub mod collection;
pub mod error;
pub mod feed_info;
pub mod gtfs;
pub mod model;
pub mod objects;
pub mod relations;
