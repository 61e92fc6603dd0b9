//! The logic of an MCP server for Nix tooling: reading the Home Manager options page, the
//! `nix` commands its tools run and what their output becomes, wiki and manual addresses,
//! and the routing of tool calls.

pub mod command;
pub mod handler;
pub mod home_manager;
pub mod json;
pub mod manual;
pub mod nixos;
pub mod nvf;
pub mod text;
pub mod tools;
