//! A file-system namespace over a flat store of keys: names and paths, the
//! mapping from keys to a tree of inodes, and namespaces built on it.
pub mod names;
pub mod tree;
pub mod inode;
pub mod error;
pub mod manifest;
pub mod reference;
pub mod metrics;
