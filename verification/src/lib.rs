//! The core of a small version-control content store: the layout of a
//! repository on disk, its configuration, and the retrieval of stored
//! objects by their content hash.

pub mod config;
pub mod decimal;
pub mod filesystem;
pub mod object;
pub mod repository;
pub mod scan;
