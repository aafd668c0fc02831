//! Data types and helpers shared by every stage.
pub mod configuration;
pub mod errors;
pub mod logger;
pub mod text;
pub mod types;
pub mod util;
