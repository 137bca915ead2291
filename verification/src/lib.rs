//! A grep-style text-search library: pattern compilation, file filtering,
//! per-line scanning with context windows, range merging and rendering,
//! and cooperative timeout handling during a traversal.

pub mod aggregate;
pub mod errors;
pub mod filters;
pub mod guard;
pub mod pattern;
pub mod query;
pub mod scan;
pub mod search;
pub mod strutil;

pub use errors::SearchError;
pub use query::OutputMode;
pub use query::SearchOptions;
pub use scan::ContentResult;
pub use scan::CountResult;
pub use search::Grep;
pub use search::SearchOutput;
pub use search::WalkItem;
