//! Descriptors of discovered files.
use crate::mod_path::{ModStack, Segment};
use vstd::prelude::*;

verus! {

/// How a module file lays out its children: beside it in a directory named
/// after its stem (`Adjacent`, as for `foo.rs`), or in its own directory
/// (`ModRs`, as for `foo/mod.rs`).
#[derive(Debug, Clone, Copy, PartialEq, Eq, Structural)]
pub enum ModType {
    Adjacent,
    ModRs,
}

/// What a discovered file is.
#[derive(Debug, Clone)]
pub enum SourceFileType {
    /// A module file, visited on its own.
    RustSource(ModType),
    /// A file spliced in by `include!`; its declarations resolve against the
    /// module stack of the place that included it.
    RustSnippet(ModStack),
    /// A file read by `include_bytes!`; never opened.
    Bytes,
    /// A file read by `include_str!`; never opened.
    String,
}

/// A discovered file, and the file whose syntax named it.
#[derive(Debug, Clone)]
pub struct SourceFileDesc {
    pub path: String,
    pub file_type: SourceFileType,
    pub parent_file: Option<String>,
}

/// The mathematical value of a [`SourceFileType`].
pub enum FileKind {
    Source(ModType),
    Snippet(Seq<Segment>),
    Bytes,
    Text,
}

/// The mathematical value of a [`SourceFileDesc`].
pub struct DescView {
    pub path: Seq<char>,
    pub kind: FileKind,
    pub parent: Option<Seq<char>>,
}

impl View for SourceFileType {
    type V = FileKind;

    open spec fn view(&self) -> FileKind {
        match self {
            SourceFileType::RustSource(t) => FileKind::Source(*t),
            SourceFileType::RustSnippet(s) => FileKind::Snippet(s@),
            SourceFileType::Bytes => FileKind::Bytes,
            SourceFileType::String => FileKind::Text,
        }
    }
}

impl View for SourceFileDesc {
    type V = DescView;

    open spec fn view(&self) -> DescView {
        DescView {
            path: self.path@,
            kind: self.file_type@,
            parent: match self.parent_file {
                Some(p) => Some(p@),
                None => None,
            },
        }
    }
}

impl SourceFileType {
    /// A copy of this value.
    pub fn duplicate(&self) -> (r: Self)
        ensures
            r@ == self@,
    {
        match self {
            SourceFileType::RustSource(t) => SourceFileType::RustSource(*t),
            SourceFileType::RustSnippet(s) => SourceFileType::RustSnippet(s.duplicate()),
            SourceFileType::Bytes => SourceFileType::Bytes,
            SourceFileType::String => SourceFileType::String,
        }
    }
}

impl SourceFileDesc {
    pub fn new(path: String, file_type: SourceFileType, parent_file: Option<String>) -> (r: Self)
        ensures
            r.path == path,
            r.file_type == file_type,
            r.parent_file == parent_file,
    {
        SourceFileDesc { path, file_type, parent_file }
    }

    /// A copy of this descriptor.
    pub fn duplicate(&self) -> (r: Self)
        ensures
            r@ == self@,
    {
        let parent_file = match &self.parent_file {
            Some(p) => Some(p.clone()),
            None => None,
        };
        SourceFileDesc { path: self.path.clone(), file_type: self.file_type.duplicate(), parent_file }
    }
}

} // verus!
