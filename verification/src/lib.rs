pub mod config;
pub mod search;
pub mod text;

pub use config::Config;
pub use config::ParseError;
pub use search::search;
pub use search::search_insensitive;
pub use search::search_sensitive;
