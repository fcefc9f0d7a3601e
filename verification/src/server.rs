//! What the HTTP endpoints answer, as plain values.

pub mod responses;
pub mod routes;
