//! Package- and source-resolution front end of a compiler build tool.
//!
//! Given a project root holding a manifest, the library discovers the full
//! transitive set of dependency packages, resolves each package's declared
//! source directories, lists the source files under each, and derives
//! per-package namespace and module-name metadata.  Manifest reading and
//! directory listing are performed by the caller; the library consumes their
//! results as plain values and is verified end to end.

pub mod assoc;
pub mod files;
pub mod graph;
pub mod manifest;
pub mod naming;
pub mod package;
pub mod source_dirs;
pub mod strutil;
