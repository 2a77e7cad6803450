pub mod access_control;
pub mod application_logging;
pub mod boundary_execution;
pub mod catalog;
pub mod client;
pub mod command;
pub mod command_dispatch;
pub mod config;
pub mod connection;
pub mod database;
pub mod database_execution;
pub mod deletion;
pub mod drawer;
pub mod engine;
pub mod error;
pub mod fields;
pub mod offsets;
pub mod paths;
pub mod pointer;
pub mod routing;
pub mod seed;
pub mod storage;
pub mod text;
pub mod value;
pub mod wal;
