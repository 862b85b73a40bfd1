//! The stack of nested module scopes, and the files a module declaration may
//! resolve to.
use crate::error::{faults, Error, Fault};
use crate::path::{file_stem, join, join_path, parent, parent_path, stem_of};
use crate::syntax::{decode_str_literal, is_word, literal_value, Attr, ModItem};
use crate::source_desc::{DescView, FileKind, ModType, SourceFileDesc, SourceFileType};
use vstd::prelude::*;

verus! {

/// A file that stands for a module, with the layout of its children.
#[derive(Debug, Clone)]
pub struct ModPath {
    pub path: String,
    pub mod_type: ModType,
}

/// The mathematical value of a [`ModPath`].
pub struct ModPathView {
    pub path: Seq<char>,
    pub mod_type: ModType,
}

impl View for ModPath {
    type V = ModPathView;

    open spec fn view(&self) -> ModPathView {
        ModPathView { path: self.path@, mod_type: self.mod_type }
    }
}

/// The descriptor of a module file that nothing has claimed as parent yet.
pub open spec fn source_of(m: ModPathView) -> DescView {
    DescView { path: m.path, kind: FileKind::Source(m.mod_type), parent: None }
}

/// The error that reports a module file as absent.
pub open spec fn missing(m: ModPathView) -> Fault {
    Fault::MissingFile(source_of(m))
}

impl ModPath {
    pub fn new(path: String, mod_type: ModType) -> (r: Self)
        ensures
            r.path == path,
            r.mod_type == mod_type,
    {
        ModPath { path, mod_type }
    }

    /// A copy of this value.
    pub fn duplicate(&self) -> (r: Self)
        ensures
            r@ == self@,
    {
        ModPath { path: self.path.clone(), mod_type: self.mod_type }
    }

    /// The descriptor of this module file.
    pub fn into_source(self) -> (r: SourceFileDesc)
        ensures
            r@ == source_of(self@),
    {
        SourceFileDesc::new(self.path, SourceFileType::RustSource(self.mod_type), None)
    }
}

/// One level of module nesting.
#[derive(Debug, Clone)]
pub enum ModSegment {
    /// A `path` attribute on a module with an inline body: a directory only.
    InlinePath(String),
    /// A module declared by name alone.
    Ident(String),
    /// A file: the anchor of a file's own stack, or a `path` attribute on a
    /// module without a body.
    ModPath(ModPath),
}

/// The mathematical value of a [`ModSegment`].
pub enum Segment {
    InlinePath(Seq<char>),
    Ident(Seq<char>),
    ModPath(ModPathView),
}

impl View for ModSegment {
    type V = Segment;

    open spec fn view(&self) -> Segment {
        match self {
            ModSegment::InlinePath(p) => Segment::InlinePath(p@),
            ModSegment::Ident(n) => Segment::Ident(n@),
            ModSegment::ModPath(m) => Segment::ModPath(m@),
        }
    }
}

impl ModSegment {
    /// A copy of this segment.
    pub fn duplicate(&self) -> (r: Self)
        ensures
            r@ == self@,
    {
        match self {
            ModSegment::InlinePath(p) => ModSegment::InlinePath(p.clone()),
            ModSegment::Ident(n) => ModSegment::Ident(n.clone()),
            ModSegment::ModPath(m) => ModSegment::ModPath(m.duplicate()),
        }
    }
}

/// The lexical nesting from a file's anchor to the current point.
#[derive(Debug, Clone)]
pub struct ModStack(pub Vec<ModSegment>);

impl View for ModStack {
    type V = Seq<Segment>;

    open spec fn view(&self) -> Seq<Segment> {
        self.0@.map_values(|s: ModSegment| s@)
    }
}

/// A stack whose bottom segment names a file, as every stack built from a
/// file is.
pub open spec fn anchored(s: Seq<Segment>) -> bool {
    s.len() > 0 && s[0] is ModPath
}

/// The directory reached from `acc` by passing segment `seg`, which `next`
/// follows.
pub open spec fn advance(acc: Seq<char>, seg: Segment, next: Segment) -> Seq<char> {
    match seg {
        Segment::Ident(n) => join(acc, n),
        Segment::InlinePath(r) => join(acc, r),
        Segment::ModPath(m) => {
            let d = join(acc, parent(m.path));
            if next is Ident && m.mod_type == ModType::Adjacent {
                join(d, file_stem(m.path))
            } else {
                d
            }
        },
    }
}

/// The directory that the first `n` segments of `s` lead to.
pub open spec fn dir_prefix(s: Seq<Segment>, n: nat) -> Seq<char>
    decreases n,
{
    if n == 0 {
        Seq::empty()
    } else {
        advance(dir_prefix(s, (n - 1) as nat), s[n - 1], s[n as int])
    }
}

pub open spec fn rs_suffix() -> Seq<char> {
    seq!['.', 'r', 's']
}

pub open spec fn mod_rs() -> Seq<char> {
    seq!['m', 'o', 'd', '.', 'r', 's']
}

/// The files, in the order they are tried, that the top segment of `s` may
/// resolve to: a named module is first `name.rs`, then `name/mod.rs`; a file
/// segment is that file alone.
pub open spec fn candidates(s: Seq<Segment>) -> Seq<ModPathView> {
    if s.len() == 0 {
        seq![]
    } else {
        let acc = dir_prefix(s, (s.len() - 1) as nat);
        match s.last() {
            Segment::ModPath(m) => seq![ModPathView { path: join(acc, m.path), mod_type: m.mod_type }],
            Segment::Ident(n) => seq![
                ModPathView { path: join(acc, n + rs_suffix()), mod_type: ModType::Adjacent },
                ModPathView { path: join(join(acc, n), mod_rs()), mod_type: ModType::ModRs },
            ],
            Segment::InlinePath(_) => seq![],
        }
    }
}

/// Whether `p` is among the paths known to be regular files.
pub open spec fn on_disk(existing: Seq<String>, p: Seq<char>) -> bool {
    exists|i: int| 0 <= i < existing.len() && existing[i]@ == p
}

/// The first candidate that is a regular file.
pub open spec fn first_on_disk(c: Seq<ModPathView>, existing: Seq<String>) -> Option<ModPathView>
    decreases c.len(),
{
    if c.len() == 0 {
        None
    } else if on_disk(existing, c[0].path) {
        Some(c[0])
    } else {
        first_on_disk(c.drop_first(), existing)
    }
}

/// Whether `p` is one of `existing`.
pub fn is_on_disk(existing: &Vec<String>, p: &String) -> (r: bool)
    ensures
        r == on_disk(existing@, p@),
{
    let mut i: usize = 0;
    while i < existing.len()
        invariant
            i <= existing@.len(),
            forall|j: int| 0 <= j < i ==> existing@[j]@ != p@,
        decreases existing@.len() - i,
    {
        if existing[i] == *p {
            return true;
        }
        i = i + 1;
    }
    false
}

/// Probes `cands` in order against `existing`: the first that is a file, or
/// one missing-file error for every candidate.
pub fn resolve_candidates(cands: &Vec<ModPath>, existing: &Vec<String>) -> (r: Result<ModPath, Vec<Error>>)
    ensures
        match first_on_disk(cands@.map_values(|m: ModPath| m@), existing@) {
            Some(m) => r is Ok && r->Ok_0@ == m,
            None => r is Err && faults(r->Err_0@) == cands@.map_values(|m: ModPath| missing(m@)),
        },
{
    let ghost views = cands@.map_values(|m: ModPath| m@);
    let mut i: usize = 0;
    assert(views.subrange(0, views.len() as int) =~= views);
    while i < cands.len()
        invariant
            i <= cands@.len(),
            views == cands@.map_values(|m: ModPath| m@),
            first_on_disk(views, existing@) == first_on_disk(views.subrange(i as int, views.len() as int), existing@),
        decreases cands@.len() - i,
    {
        proof {
            let rest = views.subrange(i as int, views.len() as int);
            assert(rest.drop_first() =~= views.subrange(i + 1, views.len() as int));
        }
        if is_on_disk(existing, &cands[i].path) {
            return Ok(cands[i].duplicate());
        }
        i = i + 1;
    }
    let mut errs: Vec<Error> = Vec::new();
    let mut j: usize = 0;
    while j < cands.len()
        invariant
            j <= cands@.len(),
            errs@.len() == j,
            faults(errs@) =~= cands@.subrange(0, j as int).map_values(|m: ModPath| missing(m@)),
        decreases cands@.len() - j,
    {
        let ghost before = errs@;
        let e = Error::MissingFile(cands[j].duplicate().into_source());
        errs.push(e);
        assert(errs@ == before.push(e));
        assert(e@ == missing(cands@[j as int]@));
        assert forall|k: int| 0 <= k <= j implies #[trigger] faults(errs@)[k] == missing(cands@[k]@) by {
            if k < j {
                assert(faults(before)[k] == cands@.subrange(0, j as int).map_values(|m: ModPath| missing(m@))[k]);
            }
        }
        assert(faults(errs@) =~= cands@.subrange(0, j + 1).map_values(|m: ModPath| missing(m@)));
        j = j + 1;
    }
    assert(cands@.subrange(0, cands@.len() as int) =~= cands@);
    Err(errs)
}

impl ModStack {
    pub fn from_segments(segments: Vec<ModSegment>) -> (r: Self)
        ensures
            r.0 == segments,
    {
        ModStack(segments)
    }

    /// A copy of this stack.
    pub fn duplicate(&self) -> (r: Self)
        ensures
            r@ == self@,
    {
        let mut v: Vec<ModSegment> = Vec::new();
        let mut i: usize = 0;
        while i < self.0.len()
            invariant
                i <= self.0@.len(),
                v@.len() == i,
                v@.map_values(|s: ModSegment| s@) =~= self@.subrange(0, i as int),
            decreases self.0@.len() - i,
        {
            let ghost before = v@;
            let seg = self.0[i].duplicate();
            v.push(seg);
            assert(v@ == before.push(seg));
            assert(seg@ == self@[i as int]);
            assert(v@.map_values(|s: ModSegment| s@) =~= self@.subrange(0, i + 1));
            i = i + 1;
        }
        assert(self@.subrange(0, i as int) =~= self@);
        ModStack(v)
    }

    pub fn push(&mut self, mod_segment: ModSegment)
        ensures
            final(self)@ == old(self)@.push(mod_segment@),
    {
        self.0.push(mod_segment);
        assert(self@ =~= old(self)@.push(mod_segment@));
    }

    pub fn pop(&mut self)
        ensures
            final(self)@ == if old(self)@.len() == 0 { old(self)@ } else { old(self)@.drop_last() },
    {
        let _ = self.0.pop();
        assert(self@ =~= if old(self)@.len() == 0 { old(self)@ } else { old(self)@.drop_last() });
    }

    /// Whether the bottom segment names a file.
    pub fn is_anchored(&self) -> (r: bool)
        ensures
            r == anchored(self@),
    {
        self.0.len() > 0 && match &self.0[0] {
            ModSegment::ModPath(_) => true,
            _ => false,
        }
    }

    /// The file that the stack is anchored at.
    pub fn parent_file_path(&self) -> (r: &String)
        requires
            anchored(self@),
        ensures
            r@ == self@[0]->ModPath_0.path,
    {
        match &self.0[0] {
            ModSegment::ModPath(m) => &m.path,
            _ => vstd::pervasive::unreached(),
        }
    }

    /// The files that the top segment may resolve to, in the order they are
    /// tried.
    pub fn get_mod_path_candidates(&self) -> (r: Vec<ModPath>)
        ensures
            r@.map_values(|m: ModPath| m@) == candidates(self@),
    {
        let n = self.0.len();
        if n == 0 {
            let r: Vec<ModPath> = Vec::new();
            assert(r@.map_values(|m: ModPath| m@) =~= candidates(self@));
            return r;
        }
        let mut path = String::new();
        let mut i: usize = 0;
        while i < n - 1
            invariant
                n == self.0@.len(),
                n > 0,
                i <= n - 1,
                path@ == dir_prefix(self@, i as nat),
            decreases n - 1 - i,
        {
            match &self.0[i] {
                ModSegment::Ident(id) => {
                    path = join_path(path.as_str(), id.as_str());
                },
                ModSegment::InlinePath(p) => {
                    path = join_path(path.as_str(), p.as_str());
                },
                ModSegment::ModPath(m) => {
                    let up = parent_path(m.path.as_str());
                    let d = join_path(path.as_str(), up.as_str());
                    let next_is_ident = match &self.0[i + 1] {
                        ModSegment::Ident(_) => true,
                        _ => false,
                    };
                    if next_is_ident && m.mod_type == ModType::Adjacent {
                        let stem = stem_of(m.path.as_str());
                        path = join_path(d.as_str(), stem.as_str());
                    } else {
                        path = d;
                    }
                },
            }
            i = i + 1;
        }
        let r = match &self.0[n - 1] {
            ModSegment::ModPath(m) => {
                let p = join_path(path.as_str(), m.path.as_str());
                vec![ModPath::new(p, m.mod_type)]
            },
            ModSegment::Ident(id) => {
                let file = id.clone().concat(".rs");
                let dir = join_path(path.as_str(), id.as_str());
                let adjacent = ModPath::new(join_path(path.as_str(), file.as_str()), ModType::Adjacent);
                let index = ModPath::new(join_path(dir.as_str(), "mod.rs"), ModType::ModRs);
                proof {
                    reveal_strlit(".rs");
                    reveal_strlit("mod.rs");
                    assert(".rs"@ =~= rs_suffix());
                    assert("mod.rs"@ =~= mod_rs());
                }
                vec![adjacent, index]
            },
            ModSegment::InlinePath(_) => Vec::new(),
        };
        assert(r@.map_values(|m: ModPath| m@) =~= candidates(self@));
        r
    }

    /// The first candidate that is one of `existing`, or a missing-file error
    /// for each candidate when none is.
    pub fn resolve_mod_path(&self, existing: &Vec<String>) -> (r: Result<ModPath, Vec<Error>>)
        ensures
            match first_on_disk(candidates(self@), existing@) {
                Some(m) => r is Ok && r->Ok_0@ == m,
                None => r is Err && faults(r->Err_0@) == candidates(self@).map_values(
                    |m: ModPathView| missing(m),
                ),
            },
    {
        let c = self.get_mod_path_candidates();
        let ghost cv = c@;
        let r = resolve_candidates(&c, existing);
        assert(cv.map_values(|m: ModPath| missing(m@)) =~= candidates(self@).map_values(
            |m: ModPathView| missing(m),
        ));
        r
    }
}

/// Whether an attribute is a name-value attribute named `path`.
pub open spec fn is_path_attr(a: Attr) -> bool {
    is_word(a.path@, seq!['p', 'a', 't', 'h']) && a.value is Some
}

/// What a path attribute decodes to: the path its string literal names, or
/// an error naming the attribute.
pub open spec fn decode_override(a: Attr) -> Result<Seq<char>, Fault> {
    match literal_value(a.value->Some_0@) {
        Some(v) => Ok(v),
        None => Err(Fault::UnresolvedPathAttr(a.text@)),
    }
}

/// The decoded path attributes among `attrs`, in order.
pub open spec fn decoded_overrides(attrs: Seq<Attr>) -> Seq<Result<Seq<char>, Fault>>
    decreases attrs.len(),
{
    if attrs.len() == 0 {
        seq![]
    } else {
        let rest = decoded_overrides(attrs.drop_last());
        if is_path_attr(attrs.last()) {
            rest.push(decode_override(attrs.last()))
        } else {
            rest
        }
    }
}

/// The view of a decoded override.
pub open spec fn override_view(o: Result<String, Error>) -> Result<Seq<char>, Fault> {
    match o {
        Ok(v) => Ok(v@),
        Err(e) => Err(e@),
    }
}

/// The segment that a path override contributes: a directory for a module
/// with an inline body, otherwise the named file, laid out as an index file.
pub open spec fn override_segment(v: Seq<char>, inline: bool) -> Segment {
    if inline {
        Segment::InlinePath(v)
    } else {
        Segment::ModPath(ModPathView { path: v, mod_type: ModType::ModRs })
    }
}

/// The segments of the decoded overrides `ov`, in order.
pub open spec fn override_segments(ov: Seq<Result<Seq<char>, Fault>>, inline: bool) -> Seq<Segment>
    decreases ov.len(),
{
    if ov.len() == 0 {
        seq![]
    } else {
        let rest = override_segments(ov.drop_last(), inline);
        match ov.last() {
            Ok(v) => rest.push(override_segment(v, inline)),
            Err(_) => rest,
        }
    }
}

/// The errors among the decoded overrides `ov`, in order.
pub open spec fn override_errors(ov: Seq<Result<Seq<char>, Fault>>) -> Seq<Fault>
    decreases ov.len(),
{
    if ov.len() == 0 {
        seq![]
    } else {
        let rest = override_errors(ov.drop_last());
        match ov.last() {
            Ok(_) => rest,
            Err(e) => rest.push(e),
        }
    }
}

/// The segments a module declaration contributes: one per path override
/// that decoded, or its name when none did.
pub open spec fn lowered_segments(ident: Seq<char>, inline: bool, ov: Seq<Result<Seq<char>, Fault>>) -> Seq<Segment> {
    let segs = override_segments(ov, inline);
    if segs.len() == 0 {
        seq![Segment::Ident(ident)]
    } else {
        segs
    }
}

/// Reads a path override off one attribute: nothing when the attribute is not
/// a name-value `path` attribute, else the path or an error naming the
/// attribute.
fn parse_possible_path(attr: &Attr) -> (r: Option<Result<String, Error>>)
    ensures
        r is Some == is_path_attr(*attr),
        r matches Some(o) ==> override_view(o) == decode_override(*attr),
{
    proof {
        reveal_strlit("path");
        assert("path"@ =~= seq!['p', 'a', 't', 'h']);
    }
    if attr.path.len() != 1 {
        return None;
    }
    let name = "path".to_owned();
    if attr.path[0] != name {
        return None;
    }
    match &attr.value {
        None => None,
        Some(v) => match decode_str_literal(v.as_str()) {
            Some(p) => Some(Ok(p)),
            None => Some(Err(Error::UnresolvedPathAttr(attr.text.clone()))),
        },
    }
}

/// Turns decoded path overrides into the segments of a module declaration and
/// the errors of the overrides that could not be decoded.
pub fn lower_overrides(ident: &String, inline: bool, overrides: Vec<Result<String, Error>>) -> (r: (
    Vec<ModSegment>,
    Vec<Error>,
))
    ensures
        r.0@.map_values(|s: ModSegment| s@) == lowered_segments(
            ident@,
            inline,
            overrides@.map_values(|o: Result<String, Error>| override_view(o)),
        ),
        faults(r.1@) == override_errors(
            overrides@.map_values(|o: Result<String, Error>| override_view(o)),
        ),
{
    let ghost ov = overrides@.map_values(|o: Result<String, Error>| override_view(o));
    let mut segments: Vec<ModSegment> = Vec::new();
    let mut unresolved: Vec<Error> = Vec::new();
    let n = overrides.len();
    let mut i: usize = 0;
    while i < n
        invariant
            n == overrides@.len(),
            i <= n,
            ov == overrides@.map_values(|o: Result<String, Error>| override_view(o)),
            segments@.map_values(|s: ModSegment| s@) =~= override_segments(ov.subrange(0, i as int), inline),
            faults(unresolved@) =~= override_errors(ov.subrange(0, i as int)),
        decreases n - i,
    {
        proof {
            assert(ov.subrange(0, i + 1).drop_last() =~= ov.subrange(0, i as int));
        }
        match &overrides[i] {
            Ok(p) => {
                let seg = if inline {
                    ModSegment::InlinePath(p.clone())
                } else {
                    ModSegment::ModPath(ModPath::new(p.clone(), ModType::ModRs))
                };
                segments.push(seg);
            },
            Err(e) => {
                unresolved.push(e.duplicate());
            },
        }
        i = i + 1;
    }
    assert(ov.subrange(0, n as int) =~= ov);
    if segments.len() == 0 {
        segments.push(ModSegment::Ident(ident.clone()));
        assert(segments@.map_values(|s: ModSegment| s@) =~= seq![Segment::Ident(ident@)]);
    }
    (segments, unresolved)
}

/// The segments that a module declaration contributes, and the errors of
/// its undecodable path attributes.
pub fn get_possible_segments(item_mod: &ModItem) -> (r: (Vec<ModSegment>, Vec<Error>))
    ensures
        r.0@.map_values(|s: ModSegment| s@) == lowered_segments(
            item_mod.ident@,
            item_mod.content is Some,
            decoded_overrides(item_mod.attrs@),
        ),
        faults(r.1@) == override_errors(decoded_overrides(item_mod.attrs@)),
{
    let mut overrides: Vec<Result<String, Error>> = Vec::new();
    let n = item_mod.attrs.len();
    let mut i: usize = 0;
    while i < n
        invariant
            n == item_mod.attrs@.len(),
            i <= n,
            overrides@.map_values(|o: Result<String, Error>| override_view(o)) =~= decoded_overrides(
                item_mod.attrs@.subrange(0, i as int),
            ),
        decreases n - i,
    {
        let ghost pre = item_mod.attrs@.subrange(0, i as int);
        proof {
            assert(item_mod.attrs@.subrange(0, i + 1).drop_last() =~= pre);
        }
        match parse_possible_path(&item_mod.attrs[i]) {
            Some(o) => {
                overrides.push(o);
            },
            None => {},
        }
        i = i + 1;
    }
    assert(item_mod.attrs@.subrange(0, n as int) =~= item_mod.attrs@);
    lower_overrides(&item_mod.ident, item_mod.content.is_some(), overrides)
}

} // verus!
