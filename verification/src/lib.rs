pub mod text;
pub mod markdown;
pub mod tools;
pub mod session;
pub mod cli;
pub mod config;
pub mod agent;
pub mod commands;
