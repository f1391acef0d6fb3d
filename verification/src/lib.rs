//! Arca: archive format detection, path safety policy, resource limits and
//! operation planning, with their contracts proved by Verus.

pub mod archive;
pub mod associations;
pub mod cli;
pub mod cancel;
pub mod compress;
pub mod digest;
pub mod direct_edit;
pub mod error;
pub mod format;
pub mod gui;
pub mod integrity;
pub mod limits;
pub mod manifest;
pub mod menus;
pub mod mimeapps;
pub mod native;
pub mod operations;
pub mod options;
pub mod plan;
pub mod policy;
pub mod progress;
pub mod publish;
pub mod scan;
pub mod startup;
pub mod text;
pub mod time;
pub mod writing;

pub use error::{ArcaError, ArcaResult, ExitCode};
