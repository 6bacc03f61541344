//! The command model: locators, application resolution, requests and the
//! executor that runs them against a backend.

pub mod locator;
pub mod model;
pub mod execution_context;
pub mod command;
pub mod redaction;
