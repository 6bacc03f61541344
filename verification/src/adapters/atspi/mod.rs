//! The AT-SPI side of the tool: connection bookkeeping, node queries and the
//! accessibility-tree model that locators are matched against.

pub mod backend;
pub mod capture;
pub mod query;
pub mod segments;
pub mod session;
pub mod tree;

pub use query::AtspiQuery;
pub use session::AtspiSession;
