//! Finds the media files under a root directory that a remote catalog does
//! not hold yet, cheaply: files are matched by exact size and a fingerprint of
//! their first block, and a snapshot of the tree from the previous run points
//! at the files that are likely new. Tracks the progress of uploading them
//! with bounded concurrency.
pub mod config;
pub mod file_extension;
pub mod file_traversal;
pub mod file_utils;
pub mod path_data;
pub mod remote_index;
pub mod shared_state;
pub mod text;
pub mod tree_node;
pub mod upload_status;
