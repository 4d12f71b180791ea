//! Core logic for a pangenome-aware alignment post-processing toolkit.
//!
//! Two components make up the library:
//!
//! * the identifier transformer, which rewrites composite
//!   `sample#haplotype#contig` reference names in a reference dictionary
//!   (strip the leading two fields, or prepend a literal prefix), and
//! * the tag synchronizer, which merges auxiliary tags from a source record
//!   stream onto a name-matched destination record stream in a single
//!   forward merge-join pass.
//!
//! All I/O (BAM decoding and encoding, argument handling, process
//! orchestration) lives outside this crate; the library works on plain
//! in-memory values.
pub mod config;
pub mod dict;
pub mod header;
pub mod names;
pub mod records;
pub mod sync;
