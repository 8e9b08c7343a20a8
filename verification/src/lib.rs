//! A graph-structured store of typed resources, mutated through signed,
//! chained commits and read through triple patterns and paths.

pub mod agents;
pub mod atoms;
pub mod commit;
pub mod crypto;
pub mod datetime_helpers;
pub mod decimal;
pub mod errors;
pub mod fields;
pub mod hierarchy;
pub mod index;
pub mod json;
pub mod json_array;
pub mod mapping;
pub mod model;
pub mod paths;
pub mod populate;
pub mod requests;
pub mod resources;
pub mod schema;
pub mod serialize;
pub mod store;
pub mod storelike;
pub mod text;
pub mod urls;
pub mod validate;
pub mod values;
