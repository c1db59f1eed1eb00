//! Paginated, filterable listing over a small relational dataset of
//! characters, locations and episodes, with cached row counts and an
//! all-or-nothing reseed.
//!
//! - [`pager`]: from a page index and a row count to an offset window, the
//!   number of pages and whether a further page exists.
//! - [`graphql`]: the rows, the count cache, the filter compiler, and what
//!   each list, lookup and write decides.
//! - [`store`]: the entity store as a mathematical object, with its
//!   constraints, its statements and its transactions.
//! - [`memory`]: a store that keeps its tables in memory and meets that
//!   description statement by statement.
//! - [`db`]: row counts, seed data and the reseed.
//!
//! Every function in this crate carries a contract that is checked by Verus.

pub mod db;
pub mod graphql;
pub mod memory;
pub mod pager;
pub mod store;
