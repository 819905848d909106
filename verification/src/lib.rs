pub mod csvio;
pub mod plan;
pub mod store;
pub mod text;
pub mod timefmt;
pub mod transform;
pub mod trigger;
