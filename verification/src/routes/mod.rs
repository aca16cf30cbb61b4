//! Request bodies and queries of the HTTP routes, and the decisions taken on them.

pub mod agents;
pub mod transactions;
