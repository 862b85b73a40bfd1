//! What can go wrong while following a crate's files.
use crate::source_desc::{DescView, SourceFileDesc};
use vstd::prelude::*;

verus! {

/// One failure met during discovery.
#[derive(Debug, Clone)]
pub enum Error {
    /// The parser rejected a file; its message.
    Syn(String),
    /// A file could not be opened or read; the cause.
    IO(String),
    /// A `path` attribute whose value is not a string literal; the attribute.
    UnresolvedPathAttr(String),
    /// An inclusion macro whose argument is not a string literal; the macro.
    UnresolvedIncludeArg(String),
    /// A file that a declaration or an inclusion names does not exist.
    MissingFile(SourceFileDesc),
}

/// The mathematical value of an [`Error`].
pub enum Fault {
    Syn(Seq<char>),
    IO(Seq<char>),
    UnresolvedPathAttr(Seq<char>),
    UnresolvedIncludeArg(Seq<char>),
    MissingFile(DescView),
}

impl View for Error {
    type V = Fault;

    open spec fn view(&self) -> Fault {
        match self {
            Error::Syn(m) => Fault::Syn(m@),
            Error::IO(m) => Fault::IO(m@),
            Error::UnresolvedPathAttr(a) => Fault::UnresolvedPathAttr(a@),
            Error::UnresolvedIncludeArg(a) => Fault::UnresolvedIncludeArg(a@),
            Error::MissingFile(d) => Fault::MissingFile(d@),
        }
    }
}

impl Error {
    /// A copy of this error.
    pub fn duplicate(&self) -> (r: Self)
        ensures
            r@ == self@,
    {
        match self {
            Error::Syn(m) => Error::Syn(m.clone()),
            Error::IO(m) => Error::IO(m.clone()),
            Error::UnresolvedPathAttr(a) => Error::UnresolvedPathAttr(a.clone()),
            Error::UnresolvedIncludeArg(a) => Error::UnresolvedIncludeArg(a.clone()),
            Error::MissingFile(d) => Error::MissingFile(d.duplicate()),
        }
    }
}

/// The views of a list of errors.
pub open spec fn faults(v: Seq<Error>) -> Seq<Fault> {
    v.map_values(|e: Error| e@)
}

/// The files visited, each with the errors met while visiting it.
#[derive(Debug)]
pub struct SourcesAndErrors {
    pub sources: Vec<(SourceFileDesc, Vec<Error>)>,
}

/// The view of one visited file and its errors.
pub open spec fn entry_view(e: (SourceFileDesc, Vec<Error>)) -> (DescView, Seq<Fault>) {
    (e.0@, faults(e.1@))
}

/// The errors of `entries`, in order, each paired with its file.
pub open spec fn flat_errors(entries: Seq<(DescView, Seq<Fault>)>) -> Seq<(DescView, Fault)>
    decreases entries.len(),
{
    if entries.len() == 0 {
        seq![]
    } else {
        let last = entries.last();
        flat_errors(entries.drop_last()) + last.1.map_values(|f: Fault| (last.0, f))
    }
}

impl View for SourcesAndErrors {
    type V = Seq<(DescView, Seq<Fault>)>;

    open spec fn view(&self) -> Seq<(DescView, Seq<Fault>)> {
        self.sources@.map_values(|e: (SourceFileDesc, Vec<Error>)| entry_view(e))
    }
}

impl SourcesAndErrors {
    pub fn new(sources: Vec<(SourceFileDesc, Vec<Error>)>) -> (r: Self)
        ensures
            r.sources == sources,
    {
        Self { sources }
    }

    /// Whether any visited file met an error.
    pub fn has_errors(&self) -> (r: bool)
        ensures
            r == exists|i: int| 0 <= i < self@.len() && #[trigger] self@[i].1.len() > 0,
    {
        let n = self.sources.len();
        let mut i: usize = 0;
        while i < n
            invariant
                n == self.sources@.len(),
                i <= n,
                forall|j: int| 0 <= j < i ==> #[trigger] self@[j].1.len() == 0,
            decreases n - i,
        {
            assert(self@[i as int].1.len() == self.sources@[i as int].1@.len());
            if self.sources[i].1.len() > 0 {
                return true;
            }
            i = i + 1;
        }
        false
    }

    /// The outcome of a run: the visited files when no file met an error,
    /// else every visit with its errors.
    pub fn into_outcome(self) -> (r: Result<Vec<SourceFileDesc>, SourcesAndErrors>)
        ensures
            match r {
                Ok(v) => {
                    &&& forall|i: int| 0 <= i < self@.len() ==> #[trigger] self@[i].1.len() == 0
                    &&& v@.map_values(|d: SourceFileDesc| d@) == self@.map_values(|e: (DescView, Seq<Fault>)| e.0)
                },
                Err(e) => {
                    &&& exists|i: int| 0 <= i < self@.len() && #[trigger] self@[i].1.len() > 0
                    &&& e@ == self@
                },
            },
    {
        if self.has_errors() {
            Err(self)
        } else {
            Ok(self.into_sources())
        }
    }

    /// The visited files, in order.
    pub fn into_sources(self) -> (r: Vec<SourceFileDesc>)
        ensures
            r@.map_values(|d: SourceFileDesc| d@) == self@.map_values(|e: (DescView, Seq<Fault>)| e.0),
    {
        self.get_sources()
    }

    /// Every error, in order, paired with the file it was met in.
    pub fn into_errors(self) -> (r: Vec<(SourceFileDesc, Error)>)
        ensures
            r@.map_values(|p: (SourceFileDesc, Error)| (p.0@, p.1@)) == flat_errors(self@),
    {
        let ghost all = self@;
        let mut result: Vec<(SourceFileDesc, Error)> = Vec::new();
        let n = self.sources.len();
        let mut i: usize = 0;
        assert(all.subrange(0, 0) =~= Seq::<(DescView, Seq<Fault>)>::empty());
        while i < n
            invariant
                n == self.sources@.len(),
                i <= n,
                all == self@,
                result@.map_values(|p: (SourceFileDesc, Error)| (p.0@, p.1@)) =~= flat_errors(
                    all.subrange(0, i as int),
                ),
            decreases n - i,
        {
            let ghost pre = all.subrange(0, i + 1);
            let ghost r0 = result@.map_values(|p: (SourceFileDesc, Error)| (p.0@, p.1@));
            let ghost entry = all[i as int];
            proof {
                assert(pre.drop_last() =~= all.subrange(0, i as int));
                assert(pre.last() == entry);
            }
            let source_desc = &self.sources[i].0;
            let errs = &self.sources[i].1;
            assert(entry == (source_desc@, faults(errs@)));
            let mut k: usize = 0;
            while k < errs.len()
                invariant
                    k <= errs@.len(),
                    entry == (source_desc@, faults(errs@)),
                    result@.map_values(|p: (SourceFileDesc, Error)| (p.0@, p.1@)) =~= r0 + faults(
                        errs@,
                    ).subrange(0, k as int).map_values(|f: Fault| (entry.0, f)),
                decreases errs@.len() - k,
            {
                let ghost prev = result@;
                let item = (source_desc.duplicate(), errs[k].duplicate());
                result.push(item);
                assert(result@ == prev.push(item));
                assert(item.0@ == entry.0);
                assert(faults(errs@)[k as int] == errs@[k as int]@);
                assert(result@.map_values(|p: (SourceFileDesc, Error)| (p.0@, p.1@)) =~= prev.map_values(
                    |p: (SourceFileDesc, Error)| (p.0@, p.1@),
                ).push((entry.0, errs@[k as int]@)));
                assert(faults(errs@).subrange(0, k + 1).map_values(|f: Fault| (entry.0, f)) =~= faults(
                    errs@,
                ).subrange(0, k as int).map_values(|f: Fault| (entry.0, f)).push((entry.0, errs@[k as int]@)));
                k = k + 1;
            }
            assert(faults(errs@).subrange(0, k as int) =~= faults(errs@));
            i = i + 1;
        }
        assert(all.subrange(0, n as int) =~= all);
        result
    }

    /// Copies of the visited files, in order.
    pub fn get_sources(&self) -> (r: Vec<SourceFileDesc>)
        ensures
            r@.map_values(|d: SourceFileDesc| d@) == self@.map_values(|e: (DescView, Seq<Fault>)| e.0),
    {
        let mut out: Vec<SourceFileDesc> = Vec::new();
        let n = self.sources.len();
        let mut i: usize = 0;
        while i < n
            invariant
                n == self.sources@.len(),
                i <= n,
                out@.map_values(|d: SourceFileDesc| d@) =~= self@.subrange(0, i as int).map_values(
                    |e: (DescView, Seq<Fault>)| e.0,
                ),
            decreases n - i,
        {
            let ghost prev = out@;
            let d = self.sources[i].0.duplicate();
            out.push(d);
            assert(out@ == prev.push(d));
            assert(self@.subrange(0, i + 1).map_values(|e: (DescView, Seq<Fault>)| e.0) =~= self@.subrange(
                0,
                i as int,
            ).map_values(|e: (DescView, Seq<Fault>)| e.0).push(self@[i as int].0));
            i = i + 1;
        }
        assert(self@.subrange(0, n as int) =~= self@);
        out
    }
}

} // verus!
