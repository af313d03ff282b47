//! Per-package release changelogs for a monorepo whose packages are tagged
//! independently with names of the form `<namespace>@<semver>`.

pub mod changelog;
pub mod error;
pub mod npm;
pub mod range;
pub mod remote;
pub mod subject;
pub mod tags;
pub mod text;
pub mod version;
pub mod walk;
