pub mod commands;
pub mod common;
pub mod worker;
