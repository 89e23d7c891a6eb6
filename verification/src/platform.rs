//! Contracts for services whose behavior differs between operating systems.

use std::path::PathBuf;
use vstd::prelude::*;

verus! {

/// Native file and folder pickers.
pub trait PlatformFileDialog: Send + Sync {
    /// The files the user picked; empty when the dialog was cancelled.
    fn pick_files(&self) -> Result<Vec<PathBuf>, PlatformError>;

    /// The folder the user picked, if any.
    fn pick_folder(&self) -> Result<Option<PathBuf>, PlatformError>;
}

/// Where the application keeps its support files and caches.
pub trait PlatformPaths: Send + Sync {
    /// The directory for application support files.
    fn app_support_dir(&self) -> Result<PathBuf, PlatformError>;

    /// The directory for caches.
    fn cache_dir(&self) -> Result<PathBuf, PlatformError>;
}

/// Why a platform service failed.
#[derive(Debug)]
pub enum PlatformError {
    /// The operation is not available on this platform.
    Unavailable,
    /// The operation failed.
    Operation(&'static str),
}

} // verus!
