//! Build versioning: version numbers, the version log, embedded artifact
//! metadata and the publish cycle that rotates built executables.

pub mod build_output;
pub mod clock;
pub mod console;
pub mod error;
pub mod info;
pub mod lifecycle;
pub mod log;
pub mod metadata;
pub mod session;
pub mod text;
pub mod version;
