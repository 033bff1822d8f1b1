//! Switching an application's configuration between named variants.
//!
//! Under the home directory, `.config/<app>` holds an application's live
//! configuration, `.config/<app>/possible-configs/<name>` each variant, and
//! `.config/<app>/tmp` the stash of the configuration that was live before
//! the last switch. The library plans each command as a list of filesystem
//! operations, from what was observed on disk, and proves what the plan does
//! on a model of the filesystem.
pub mod paths;
pub mod plan;
pub mod model;
pub mod laws;
