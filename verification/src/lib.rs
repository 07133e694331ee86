//! Locates the compiler toolchain's bundled code-generation backend library
//! and plans the initialization calls into it.
//!
//! The crate is split in two independent components:
//!
//! * [`path`] — the path resolver: from an explicit snapshot of the ambient
//!   environment (variables and helper-tool outputs, collected by the caller)
//!   it derives an ordered list of candidate directories and picks the first
//!   one that holds the backend library under one of its three file names.
//! * [`init`] — the entry-point dispatcher: it builds the fixed list of
//!   backend initialization symbol names and, given which of them a loaded
//!   library actually exposes, plans the exact sequence of calls to make.
//!
//! All filesystem reads, environment reads, subprocess invocations and
//! dynamic-library operations stay with the caller; this crate only computes.

pub mod environment;
pub mod init;
pub mod path;
pub mod text;
