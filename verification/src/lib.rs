pub mod dates;
pub mod equal;
pub mod fixture;
pub mod gen;
pub mod json;
pub mod laws;
pub mod rng;
pub mod route;
pub mod numparse;
pub mod perm;
pub mod query;
pub mod resolver;
pub mod schema;
pub mod strutil;
pub mod text;

pub use json::Dec;
pub use json::Json;
pub use json::JsonV;
