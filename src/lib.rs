//! Validation of Netplan-style network configuration documents against a
//! structural schema that is assembled from a base document and a shared
//! fragment of per-interface properties.

pub mod external;
pub mod tree;
pub mod schema;
pub mod validate;

pub use schema::build_schema;
pub use validate::validate;
