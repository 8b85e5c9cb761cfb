//! The two ways a file is parsed: all at once from a mapped local file, or
//! incrementally behind a writer that streams a remote source.
pub mod local;
pub mod remote;
