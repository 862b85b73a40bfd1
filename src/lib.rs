//! Discovery of the source files that make up one crate: starting from a root
//! file, module declarations and textual inclusions are followed to the files
//! they name.
//!
//! The library decides; its caller reads files, parses them into the plain
//! syntax of [`syntax`], and reports which probed paths are files.
pub mod cfg_if;
pub mod driver;
pub mod error;
pub mod laws;
pub mod mod_path;
pub mod path;
pub mod settle;
pub mod source_desc;
pub mod syntax;
pub mod visitor;

pub use driver::{finder_for, opens_file, probes_for, settle_source, Discovery};
pub use error::{Error, SourcesAndErrors};
pub use mod_path::{ModPath, ModSegment, ModStack};
pub use settle::probe_paths;
pub use source_desc::{ModType, SourceFileDesc, SourceFileType};
pub use visitor::{Lookup, SourceFinder};
