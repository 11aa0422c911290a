//! Yearly double-entry ledger records, exact amounts, import checks and
//! close helpers, with their contracts proved by Verus.
use vstd::prelude::*;

pub mod books;
pub mod calendar;
pub mod cli;
pub mod close;
pub mod codec;
pub mod cookbook;
pub mod csv;
pub mod hsqldb;
pub mod layout;
pub mod import;
pub mod model;
pub mod mount;
pub mod odb;
pub mod report;
pub mod script;
pub mod set;
pub mod store;
pub mod text;

verus! {
} // verus!
