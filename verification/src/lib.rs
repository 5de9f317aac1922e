//! Line-oriented literal text search: which lines of a text contain a query,
//! with or without regard to letter case, and the configuration that selects
//! between the two.

pub mod case;
pub mod config;
pub mod laws;
pub mod order;
pub mod runner;
pub mod scan;
pub mod search;
pub mod text;
pub mod utf8;

pub use config::{string_to_bool, Config};
pub use runner::run;
pub use search::{insensitive_search, search};
