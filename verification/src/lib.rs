//! A small recursive value algebra with shared, late-bound cells, and a
//! renderer for it that terminates on cyclic graphs.
//!
//! A [`Value`] is an integer, a list of values, or a handle to a cell of a
//! [`Store`]. A cell starts out unbound and is bound later with
//! [`Value::resolve`], possibly to a value that holds handles to the cell
//! itself. [`Value::format`] renders a value as text; it enters each cell at
//! most once and writes `*` wherever it meets a cell again, so it returns on
//! every graph.
//!
//! The contracts are stated over the mathematical model in [`model`]:
//! [`model::render`] says what the text is.

pub mod decimal;
pub mod formatter;
pub mod grammar;
pub mod laws;
pub mod model;
pub mod value;

pub use formatter::ValueFormatter;
pub use value::{integer, list, rc, InvalidOperation, Store, Value};
