//! The syntax tree of a DBC file and the parsers that build it.

pub mod bit_timing;
pub mod common_parsers;
pub mod env_var_value_descriptions;
pub mod error;
pub mod message;
pub mod network_ast;
pub mod new_symbols;
pub mod nodes;
pub mod signal;
pub mod signal_value_descriptions;
pub mod value_descriptions;
pub mod value_tables;
pub mod version;
