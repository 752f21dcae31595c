//! Project discovery and execution planning for the Rust/Cargo plugin of a
//! multi-repository orchestration tool.
//!
//! The library decides; the host performs. Directory resolution, manifest
//! filtering and plan assembly are pure functions over plain values: the
//! caller probes the filesystem and hands the answers in.

pub mod discovery;
pub mod order;
pub mod plan;
pub mod plugin;

pub use discovery::{
    filter_projects, manifest_path, resolve_directories, ConfigEntry, ResolveError, TreeConfig,
};
pub use plan::{build_plan, execute_command, CommandResult, PlannedCommand};
pub use plugin::{DirectStep, RustPlugin};
