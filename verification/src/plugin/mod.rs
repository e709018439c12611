//! Plugins of the managed profile: their configuration blocks, life cycle and synchronisation.

pub mod managed;
pub mod managed_laws;
pub mod managed_families;
pub mod managed_endings;
pub mod managed_round_trip;
pub mod registry;
pub mod spec;
pub mod state;
pub mod dump;
pub mod dump_text;
pub mod patch_file;
pub mod guard;
pub mod service;
pub mod switch;
pub mod switch_laws;
pub mod operations;
pub mod lifecycle;
pub mod sync_plan;
pub mod sync_laws;
pub mod operation_laws;
pub mod view_laws;
pub mod file_laws;
pub mod dump_laws;
pub mod spec_laws;
pub mod discover;
pub mod file_lock;
