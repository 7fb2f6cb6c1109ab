//! Directory-archiving jobs: the descriptors a configuration lists, how their
//! paths are resolved, how a directory tree becomes a gzip-compressed tar
//! stream, and the order in which a run works through its jobs.

pub mod builder;
pub mod compressor;
pub mod config;
pub mod driver;
pub mod error;
pub mod order;
pub mod resolver;
pub mod tree;
