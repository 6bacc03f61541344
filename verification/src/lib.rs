//! Command model, locator validation, redaction and backends for an AT-SPI
//! automation tool, with their behaviour stated as Verus contracts.

pub mod text;
pub mod error;
pub mod domain;
pub mod adapters;
pub mod ui_cli;
