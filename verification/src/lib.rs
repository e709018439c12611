//! Core of a launcher for the dsh web service: the rules by which it edits shared
//! configuration files, manages plugins and tool servers, and drives the service process.

pub mod model;
pub mod text;
pub mod plugin;
pub mod text_lemmas;
pub mod text_laws;
pub mod json;
pub mod text_map;
pub mod github;
pub mod github_laws;
pub mod profile;
pub mod profile_laws;
pub mod stream;
pub mod stream_laws;
pub mod mcp;
pub mod mcp_change;
pub mod mcp_laws;
pub mod mcp_add_laws;
pub mod mcp_change_laws;
pub mod mcp_outside_laws;
pub mod mcp_text;
pub mod mcp_text_laws;
pub mod port;
pub mod events;
pub mod command;
pub mod process;
pub mod process_laws;
pub mod manager;
pub mod manager_laws;
pub mod semver;
pub mod semver_laws;
pub mod cli;
pub mod cli_add;
pub mod cli_laws;
pub mod toolchain;
pub mod toolchain_laws;
pub mod version;
pub mod version_laws;
pub mod paths;
pub mod config;
pub mod config_laws;
pub mod dates;
pub mod double;
pub mod logging;
pub mod logging_laws;
pub mod pathutil;
pub mod editor;
pub mod window;
pub mod window_laws;
pub mod yaml_text;
pub mod skill;
