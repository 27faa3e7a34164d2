//! Finds audio asset files of a Wwise project that no work-unit descriptor
//! references any more, so that they can be listed or deleted.
//!
//! The library covers the computing half of that job: deciding which file
//! names mark a project root, deriving the on-disk path each descriptor
//! reference implies, merging per-descriptor results into one referenced set,
//! filtering the enumerated assets against it, and reading and writing the
//! newline-delimited list file. All file-system work (scanning, reading,
//! deleting) stays with the caller, which hands plain values in and out.

pub mod aggregate;
pub mod depth;
pub mod listfile;
pub mod paths;
pub mod strutil;
pub mod unused;
pub mod xml;
