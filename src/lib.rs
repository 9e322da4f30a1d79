//! An in-memory simulated file system: a tree of directories and byte
//! buffers, with path resolution, directory and file mutation, buffered file
//! handles, directory iteration, fault injection and a diagnostic renderer.

pub mod errors;
pub mod path;
pub mod tree;
pub mod file;
pub mod ops;
pub mod read_dir;
pub mod dir_builder;
pub mod helpers;
pub mod laws;
