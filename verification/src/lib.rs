pub mod config;
pub mod search;
pub mod text;

pub use config::Config;
pub use config::RunError;
pub use search::run_search;
pub use search::search;
pub use search::search_case_insensitive;
