pub mod dependency;
pub mod error;
pub mod text;
pub mod types;
