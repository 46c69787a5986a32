//! A library for two Git helper workflows: resolving a remote's fetch URL
//! into a browsable web address, and provisioning a new project by cloning a
//! repository named either directly or through a user-maintained catalog,
//! then running an optional post-clone customizer.
//!
//! The library holds the transformation logic — remote-listing parsing, URL
//! normalization, source resolution, customizer precedence, and the
//! provisioning state sequence — with contracts stating exactly what each
//! step yields. Processes, the filesystem, and the catalog file's on-disk
//! format belong to the surrounding application, which hands the library
//! plain values.

pub mod catalog;
pub mod provision;
pub mod remote;
pub mod source;
pub mod tool;
pub mod url;

pub use tool::{GitExtraLog, GitExtraTool};
