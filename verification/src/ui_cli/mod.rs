//! The command line: its arguments and the requests they stand for.

pub mod parser;
