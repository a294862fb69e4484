//! A gateway that answers directory operations (bind, search, who-am-I) from
//! the rows of a read-only relational user table.
//!
//! The library holds the rules: the grammar of distinguished names, the
//! recovery of a user identifier from a search filter, the choice of the
//! store query, credential checking and the filtering of what a session may
//! see. Reading the store and speaking the wire protocol are left to the
//! program around it, which hands rows in and takes replies out.

pub mod text;
pub mod dn;
pub mod filter;
pub mod store;
pub mod digest;
pub mod session;
pub mod dispatch;
pub mod laws;
