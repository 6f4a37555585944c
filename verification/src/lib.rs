//! Verified core of a YAML seed loader for MySQL-compatible databases.
pub mod text;
pub mod numbers;
pub mod table_name;
pub mod cli;
pub mod yaml;
pub mod config;
pub mod metadata;
pub mod json;
pub mod value;
pub mod apply;
pub mod export;
pub mod seeds;
pub mod run;
