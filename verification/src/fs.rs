//! File helpers: the path operations that compute without touching the disk.
pub use crate::paths::{normalize, relative, format_location, extension, stem, FileInfo};
pub use crate::encryption::content_hash;
