//! Listing, unpacking and piping of files that sit inside nested zip archives.
//!
//! The crate holds the decisions: how a chain of member names is walked, how a member name
//! becomes a path below the destination, which failure is given when. Reading the outer
//! file, writing to disk and printing are left to the caller, which hands in what it read
//! and carries out the steps it is given.
pub mod archive;
pub mod common;
pub mod error;
pub mod list;
pub mod path;
pub mod pipe;
pub mod run;
pub mod text;
pub mod unpack;
