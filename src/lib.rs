//! A declarative command-line argument parser: a validated schema of
//! positional arguments and options, a usage renderer and a one-pass parser.

pub mod schema;
pub mod usage;
pub mod parser;
pub mod command;
