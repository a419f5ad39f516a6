//! Public suffix lookup: finds the registry-controlled suffix of a domain
//! name and the registrable domain in front of it.

pub mod extract;
pub mod labels;
pub mod laws;
pub mod rule;
pub mod store;
pub mod types;

pub use extract::{domain_from_suffix, suffix_from_info, Psl};
pub use rule::{BuildError, Kind, Rule};
pub use store::List;
pub use types::{Domain, Info, Suffix, Type};
