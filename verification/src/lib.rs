pub mod cli;
pub mod command_domain;
pub mod command_init;
pub mod command_server;
pub mod config;
pub mod error_types;
pub mod global_paths;
pub mod sql_strings;
pub mod sqlite_types;
pub mod store;
pub mod strutil;
