//! Selection of values that are available, allowed and preferred, with a
//! nearest-neighbour fallback, over a value type in which a wildcard matches
//! every concrete value.
pub mod content;
pub mod search;
pub mod select;

pub use content::Content;
pub use search::{binary_search, SearchResult};
pub use select::attempt;
