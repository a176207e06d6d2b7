//! Configuration.

pub mod effective;
pub mod load;
pub mod merge;
pub mod schema;
pub mod value;
