//! State addressing, request-field validation and submission checks for the
//! dgc.network agent registry.

pub mod addresser;
pub mod digest;
mod text;
pub mod errors;
pub mod routes;
pub mod submit;
pub mod permission;
