//! Parsing and printing of CAN database (DBC) files.

pub mod ast;
pub mod text;
