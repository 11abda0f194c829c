pub mod alignment;
pub mod bonus;
pub mod classify;
pub mod engine;
pub mod laws;
pub mod matrix;
pub mod model;
pub mod params;
pub mod prefilter;
pub mod score;
pub mod search;
pub mod search_item;
pub mod text;

pub use engine::score;
pub use prefilter::has_match;
pub use score::Score;
pub use search::{search, search_score};
pub use search_item::SearchItem;
