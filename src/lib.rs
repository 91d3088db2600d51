//! An in-memory store of person records with server-assigned identifiers,
//! and the request dispatcher that maps HTTP-style requests onto it.

pub mod handler;
pub mod laws;
pub mod person;
pub mod route;
pub mod store;
