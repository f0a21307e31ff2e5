//! The errors with which a reader fails to reach a payload whose owner has
//! gone.
pub mod std_arc;
pub mod std_rc;
