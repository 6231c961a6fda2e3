//! Locating audio files, keeping per-track metadata in sidecar records, and
//! resolving cover artwork by file-name conventions.

pub mod artwork;
pub mod error;
pub mod metadata;
pub mod paths;
pub mod record;
pub mod scanner;
pub mod sidecar;
pub mod text;
