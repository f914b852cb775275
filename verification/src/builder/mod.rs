//! The package builder: manifests, dependency closures, OSTree naming and
//! the runtime dependency scanner.
pub mod manifest;
pub mod deps;
pub mod utils;
pub mod ostree;
pub mod system;
pub mod repo;
pub mod commands;
pub mod materializer;
pub mod progress;
pub mod runtime;
pub mod scan;
pub mod update;
pub mod query;
pub mod listing;
pub mod script_env;
pub mod ostree_native;
pub mod schedule;
pub mod resolution;
pub mod inputs;
pub mod outputs;
pub mod resolver;
pub mod closure;
