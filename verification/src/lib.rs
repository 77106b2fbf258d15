//! Event logs in a relational store.
//!
//! The tables of an event follow from the kinds of its fields, and the rows
//! of a log from the values of its fields. The library says which statements
//! create the tables, insert the rows, move the cursor of an event and remove
//! the blocks that left the chain; it leaves running them to the holder of a
//! connection.

pub mod database;
pub mod descriptor;
pub mod encode;
pub mod error;
pub mod keywords;
pub mod kind;
pub mod location;
pub mod name;
pub mod plan;
pub mod registry;
pub mod schema;
pub mod statement;
pub mod text;
pub mod value;
pub mod word;
