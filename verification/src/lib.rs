//! Planning and bookkeeping for a destructive pack/load pipeline.
//!
//! Files below a set of root paths are grouped into bundles, each bundle is
//! handed to an archiver program that compresses and encrypts it under a
//! password, and the files are removed once the archiver has reported
//! success. Loading reverses this. Everything that decides *what* is done
//! lives here and is verified; touching the filesystem and running the
//! archiver is left to the caller, which feeds the outcomes back in.

pub mod chunker;
pub mod entry;
pub mod host;
pub mod job;
pub mod output;
pub mod size;
pub mod stow;
