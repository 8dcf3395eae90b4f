//! Toolchain discovery and workshop-directory resolution for a local,
//! workshop-based learning environment: probing the host for usable
//! executables that satisfy a minimum semantic version, locating the
//! global and per-working-tree workshop stores, planning the copy that
//! materializes a workshop locally, and the session context that holds
//! what was resolved. Everything that touches a process, the clock or
//! the filesystem is driven from outside through small step machines;
//! the decisions themselves are verified.

pub mod error;
pub mod probe;
pub mod status;
pub mod store;
pub mod version;
pub mod workshops;
