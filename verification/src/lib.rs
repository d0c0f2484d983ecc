//! An embedded relational store: tables with typed columns, an ordered
//! index on each primary key, insertion under a uniqueness constraint,
//! queries with at most one condition, and snapshots of the whole.
//!
//! The tables live in [`database`] and [`table`]; a table is made of the
//! columns of [`column`], which hold the values of [`value`] and keep the
//! indexes of [`index`]. What holds of every table is stated in [`laws`].
//! Queries arrive as the values of [`parser`], commands as texts that
//! [`command`] and [`command_parser`] read.

pub mod column;
pub mod command;
pub mod command_parser;
pub mod database;
pub mod datatype;
pub mod error;
pub mod index;
pub mod laws;
pub mod parser;
pub mod snapshot;
pub mod staging;
pub mod strings;
pub mod table;
pub mod text;
pub mod value;
