//! Phrase lists: accounts with bcrypt-hashed passwords, an in-memory session
//! registry, tables of users, phrase lists and phrases, an all-or-nothing CSV
//! import, and the per-request decisions of the web handlers, including the
//! ownership check on every list.

pub mod errors;
pub mod models;
pub mod credentials;
pub mod session;
pub mod import;
pub mod handlers;
