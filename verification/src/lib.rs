//! Allowlist validation and tool decisions for a host-command MCP server.

pub mod auth;
pub mod config;
pub mod paths;
pub mod sanitizer;
pub mod server;
pub mod text;
