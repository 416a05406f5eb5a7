pub mod config;
pub mod providers;
pub mod repo;
