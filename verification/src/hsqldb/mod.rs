//! HSQLDB 1.8 binary row helpers.
pub mod bytes;
pub mod row;
pub mod table;
