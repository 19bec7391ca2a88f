//! Version stamping for build scripts.
//!
//! A build step wants a small generated source file that declares the
//! `VERSION` string of the package being built: the version that the package
//! manifest declares, followed by what the version-control tool says about the
//! working tree. This crate holds every decision of that step as verified
//! functions over plain values; reading the manifest, running the tool and
//! writing the file are left to the caller.

pub mod error;
pub mod manifest;
pub mod revision;
pub mod stamp;
pub mod text;

pub use crate::error::StampError;
pub use crate::manifest::version_number;
pub use crate::revision::{git_describe, ToolOutput};
pub use crate::stamp::{action_for, content, same_content_as, version, Action};
