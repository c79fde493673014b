//! A record store with pluggable persistence backends.
//!
//! The library models two interchangeable implementations of one CRUD
//! contract: a line-oriented text-file backend and a single-table
//! relational backend.  Each store works on an in-memory image of its
//! storage medium; the surrounding I/O shell loads and persists that
//! image.

pub mod account;
pub mod cfg;
pub mod crud;
pub mod csv;
pub mod id;
pub mod sqlite;
