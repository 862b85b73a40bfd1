//! The decisions of a discovery run: which file to visit next, how its walk
//! starts, and what is kept from each visit. Reading and parsing files and
//! probing the disk are the caller's part.
use crate::error::{faults, Error, Fault, SourcesAndErrors};
use crate::mod_path::{anchored, on_disk, source_of, ModPath, ModPathView, Segment};
use crate::settle::{descs, found_files, probe_paths, probes, propagate_parent_file, settle, settled};
use crate::source_desc::{DescView, FileKind, ModType, SourceFileDesc, SourceFileType};
use crate::syntax::Node;
use crate::visitor::{lookups, walk_nodes, SourceFinder};
use vstd::prelude::*;

verus! {

/// The walk that visiting `source` starts with: none for a file that is never
/// opened, the snippet's own stack for an included snippet, and a stack
/// anchored at the file itself for a module file.
pub open spec fn start_stack(source: DescView) -> Option<Seq<Segment>> {
    match source.kind {
        FileKind::Source(t) => Some(seq![Segment::ModPath(ModPathView { path: source.path, mod_type: t })]),
        FileKind::Snippet(s) => if anchored(s) {
            Some(s)
        } else {
            None
        },
        _ => None,
    }
}

/// The walk to run over `source`, if it is a file to open.
pub fn finder_for(source: &SourceFileDesc) -> (r: Option<SourceFinder>)
    ensures
        match start_stack(source@) {
            Some(s) => r is Some && r->Some_0.mod_stack@ == s && r->Some_0.lookups@.len() == 0,
            None => r is None,
        },
{
    match &source.file_type {
        SourceFileType::Bytes | SourceFileType::String => None,
        SourceFileType::RustSnippet(mod_stack) => {
            if mod_stack.is_anchored() {
                Some(SourceFinder::new(mod_stack.duplicate()))
            } else {
                None
            }
        },
        SourceFileType::RustSource(mod_type) => {
            Some(SourceFinder::from_mod_path(ModPath::new(source.path.clone(), *mod_type)))
        },
    }
}

/// What visiting the file at `path` yields once its lookups are settled
/// against `existing`: the files found, each recorded as named by `path`,
/// and the errors met.
pub fn settle_source(path: &String, finder: &SourceFinder, existing: &Vec<String>) -> (r: (
    Vec<SourceFileDesc>,
    Vec<Error>,
))
    ensures
        descs(r.0@) == found_files(lookups(finder.lookups@), existing@, path@),
        faults(r.1@) == settled(lookups(finder.lookups@), existing@).1,
{
    let (mut found, errors) = settle(&finder.lookups, existing);
    propagate_parent_file(path, &mut found);
    (found, errors)
}

/// Whether `source` is a file that a run opens and walks.
pub fn opens_file(source: &SourceFileDesc) -> (r: bool)
    ensures
        r == start_stack(source@) is Some,
{
    match finder_for(source) {
        Some(_) => true,
        None => false,
    }
}

/// The paths whose existence settling the file `source`, of syntax `nodes`,
/// depends on.
pub fn probes_for(source: &SourceFileDesc, nodes: &Vec<Node>) -> (r: Vec<String>)
    ensures
        r@.map_values(|p: String| p@) == match start_stack(source@) {
            Some(s) => probes(walk_nodes(nodes@, s)),
            None => seq![],
        },
{
    match finder_for(source) {
        None => {
            let r: Vec<String> = Vec::new();
            assert(r@.map_values(|p: String| p@) =~= seq![]);
            r
        },
        Some(mut finder) => {
            finder.visit_nodes(nodes);
            assert(lookups(finder.lookups@) =~= walk_nodes(nodes@, start_stack(source@)->Some_0));
            probe_paths(&finder.lookups)
        },
    }
}

/// `d` records as its parent a file that the run opened, and its path was
/// reported as a file at one of the run's visits.
pub open spec fn found_in_run(d: DescView, opened: Set<Seq<char>>, probed: Seq<Seq<String>>) -> bool {
    &&& d.parent is Some && opened.contains(d.parent->Some_0)
    &&& exists|j: int| 0 <= j < probed.len() && on_disk(#[trigger] probed[j], d.path)
}

proof fn lemma_found_in_run_grows(
    d: DescView,
    opened: Set<Seq<char>>,
    probed: Seq<Seq<String>>,
    opened2: Set<Seq<char>>,
    probed2: Seq<Seq<String>>,
)
    requires
        found_in_run(d, opened, probed),
        opened.subset_of(opened2),
        probed.len() <= probed2.len(),
        forall|j: int| 0 <= j < probed.len() ==> probed2[j] == probed[j],
    ensures
        found_in_run(d, opened2, probed2),
{
    let j = choose|j: int| 0 <= j < probed.len() && on_disk(#[trigger] probed[j], d.path);
    assert(probed2[j] == probed[j]);
}

/// A discovery run in progress: the files still to visit, the file being
/// visited, and those visited with their errors.
pub struct Discovery {
    pub queue: Vec<SourceFileDesc>,
    pub current: Option<SourceFileDesc>,
    pub result: SourcesAndErrors,
    /// The file the run started from.
    pub seed: Ghost<DescView>,
    /// The files opened and walked so far.
    pub opened: Ghost<Set<Seq<char>>>,
    /// For each recorded visit, the paths reported as files when it was
    /// settled.
    pub probed: Ghost<Seq<Seq<String>>>,
}

impl Discovery {
    /// What holds of every state of a run: every file other than the seed
    /// names as parent a file the run opened, and was reported as a file;
    /// every missing-file error names a path that its visit reported absent.
    pub open spec fn laws_hold(&self) -> bool {
        let q = descs(self.queue@);
        let r = self.result@;
        let pr = self.probed@;
        let op = self.opened@;
        &&& pr.len() == r.len()
        &&& self.seed@.parent is None
        &&& r.len() == 0 ==> {
            &&& self.current is Some ==> q.len() == 0 && self.current->Some_0@ == self.seed@
            &&& q.len() <= 1
            &&& q.len() == 1 ==> q[0] == self.seed@
        }
        &&& r.len() > 0 ==> r[0].0 == self.seed@
        &&& r.len() > 0 ==> forall|i: int| 0 <= i < q.len() ==> found_in_run(#[trigger] q[i], op, pr)
        &&& r.len() > 0 && self.current is Some ==> found_in_run(self.current->Some_0@, op, pr)
        &&& forall|j: int| 1 <= j < r.len() ==> found_in_run(#[trigger] r[j].0, op, pr)
        &&& forall|j: int, k: int|
            0 <= j < r.len() && 0 <= k < r[j].1.len() && (#[trigger] r[j].1[k]) is MissingFile ==> !on_disk(
                pr[j],
                r[j].1[k]->MissingFile_0.path,
            )
    }

    /// A run that starts from the module file `mod_path`.
    pub fn new(mod_path: ModPath) -> (r: Self)
        ensures
            descs(r.queue@) == seq![source_of(mod_path@)],
            r.current is None,
            r.result@.len() == 0,
            r.laws_hold(),
    {
        let seed = mod_path.into_source();
        let ghost sv = seed@;
        let ghost none_opened: Set<Seq<char>> = Set::empty();
        let ghost none_probed: Seq<Seq<String>> = seq![];
        let mut queue: Vec<SourceFileDesc> = Vec::new();
        queue.push(seed);
        let r = Discovery {
            queue,
            current: None,
            result: SourcesAndErrors::new(Vec::new()),
            seed: Ghost(sv),
            opened: Ghost(none_opened),
            probed: Ghost(none_probed),
        };
        assert(descs(r.queue@) =~= seq![sv]);
        assert(r.result@ =~= seq![]);
        r
    }

    /// A run that starts from a crate's root file, whose children live in its
    /// own directory as an index file's do.
    pub fn for_crate(path: String) -> (r: Self)
        ensures
            descs(r.queue@) == seq![source_of(ModPathView { path: path@, mod_type: ModType::ModRs })],
            r.current is None,
            r.result@.len() == 0,
            r.laws_hold(),
    {
        Self::new(ModPath::new(path, ModType::ModRs))
    }

    /// The file to visit now: the one in progress, else the most recently
    /// queued one, if any is left.
    pub fn next_source(&mut self) -> (r: Option<SourceFileDesc>)
        requires
            old(self).laws_hold(),
        ensures
            final(self).laws_hold(),
            final(self).result@ == old(self).result@,
            match old(self).current {
                Some(c) => {
                    &&& r is Some && r->Some_0@ == c@
                    &&& final(self).current == old(self).current
                    &&& final(self).queue@ == old(self).queue@
                },
                None => match r {
                    None => old(self).queue@.len() == 0 && final(self).queue@ == old(self).queue@
                        && final(self).current is None,
                    Some(d) => {
                        &&& old(self).queue@.len() > 0
                        &&& d@ == descs(old(self).queue@).last()
                        &&& descs(final(self).queue@) == descs(old(self).queue@).drop_last()
                        &&& final(self).current is Some && final(self).current->Some_0@ == d@
                    },
                },
            },
    {
        match &self.current {
            Some(c) => {
                return Some(c.duplicate());
            },
            None => {},
        }
        let ghost q0 = descs(self.queue@);
        let r = self.queue.pop();
        match r {
            None => {
                assert(self.queue@ == old(self).queue@);
                assert(self.result@ == old(self).result@);
                assert(self.current is None);
                None
            },
            Some(d) => {
                proof {
                    assert(descs(self.queue@) =~= q0.drop_last());
                    assert forall|i: int| 0 <= i < descs(self.queue@).len() implies descs(self.queue@)[i]
                        == q0[i] by {}
                }
                let ghost last = q0[q0.len() - 1];
                assert(d@ == last);
                self.current = Some(d.duplicate());
                proof {
                    let q1 = descs(self.queue@);
                    if self.result@.len() > 0 {
                        assert(found_in_run(last, self.opened@, self.probed@));
                        assert forall|i: int| 0 <= i < q1.len() implies found_in_run(
                            #[trigger] q1[i],
                            self.opened@,
                            self.probed@,
                        ) by {
                            assert(q1[i] == q0[i]);
                        }
                    }
                }
                Some(d)
            },
        }
    }

    /// Records the visit of the file in progress, whose syntax is `nodes`,
    /// settled against `existing`: the files it names join the queue, and
    /// its errors are kept with it. A file that is never opened names no
    /// files.
    pub fn record_visit(&mut self, nodes: &Vec<Node>, existing: &Vec<String>)
        requires
            old(self).laws_hold(),
        ensures
            final(self).laws_hold(),
            final(self).current is None,
            match old(self).current {
                None => final(self).queue@ == old(self).queue@ && final(self).result@ == old(self).result@,
                Some(src) => match start_stack(src@) {
                    None => {
                        &&& final(self).queue@ == old(self).queue@
                        &&& final(self).result@ == old(self).result@.push((src@, seq![]))
                    },
                    Some(s) => {
                        &&& descs(final(self).queue@) == descs(old(self).queue@) + found_files(
                            walk_nodes(nodes@, s),
                            existing@,
                            src.path@,
                        )
                        &&& final(self).result@ == old(self).result@.push(
                            (src@, settled(walk_nodes(nodes@, s), existing@).1),
                        )
                    },
                },
            },
    {
        let src = match self.current.take() {
            None => {
                return;
            },
            Some(src) => src,
        };
        let ghost q0 = descs(self.queue@);
        let ghost r0 = self.result@;
        let ghost pr0 = self.probed@;
        let ghost op0 = self.opened@;
        let ghost srcv = src@;
        match finder_for(&src) {
            None => {
                let errs: Vec<Error> = Vec::new();
                self.result.sources.push((src, errs));
                proof {
                    assert(faults(errs@) =~= seq![]);
                    assert(self.result@ =~= r0.push((srcv, seq![])));
                    self.probed@ = pr0.push(seq![]);
                    assert forall|j: int| 1 <= j < self.result@.len() implies found_in_run(
                        #[trigger] self.result@[j].0,
                        op0,
                        self.probed@,
                    ) by {
                        if j < r0.len() {
                            lemma_found_in_run_grows(r0[j].0, op0, pr0, op0, self.probed@);
                            assert(self.result@[j] == r0[j]);
                        } else {
                            lemma_found_in_run_grows(srcv, op0, pr0, op0, self.probed@);
                        }
                    }
                    assert forall|i: int| 0 <= i < q0.len() implies found_in_run(#[trigger] q0[i], op0, self.probed@) by {
                        if r0.len() > 0 {
                            lemma_found_in_run_grows(q0[i], op0, pr0, op0, self.probed@);
                        }
                    }
                    assert forall|j: int, k: int|
                        0 <= j < self.result@.len() && 0 <= k < self.result@[j].1.len()
                            && (#[trigger] self.result@[j].1[k]) is MissingFile implies !on_disk(
                        self.probed@[j],
                        self.result@[j].1[k]->MissingFile_0.path,
                    ) by {
                        assert(j < r0.len());
                        assert(self.result@[j] == r0[j]);
                        assert(self.probed@[j] == pr0[j]);
                    }
                }
            },
            Some(mut finder) => {
                let ghost s = finder.mod_stack@;
                finder.visit_nodes(nodes);
                let ghost ls = lookups(finder.lookups@);
                assert(ls =~= walk_nodes(nodes@, s));
                let (found, errs) = settle_source(&src.path, &finder, existing);
                let ghost fv = descs(found@);
                proof {
                    crate::laws::lemma_found_files_name_their_parent(ls, existing@, srcv.path);
                    crate::laws::lemma_visit_reports_only_absent_files(nodes@, s, existing@);
                }
                let mut k: usize = 0;
                while k < found.len()
                    invariant
                        k <= found@.len(),
                        fv == descs(found@),
                        self.result@ == r0,
                        self.probed@ == pr0,
                        self.opened@ == op0,
                        self.seed == old(self).seed,
                        self.current is None,
                        descs(self.queue@) =~= q0 + fv.subrange(0, k as int),
                    decreases found@.len() - k,
                {
                    let ghost prev = self.queue@;
                    let d = found[k].duplicate();
                    self.queue.push(d);
                    assert(self.queue@ == prev.push(d));
                    assert(descs(self.queue@) =~= descs(prev).push(d@));
                    assert(fv.subrange(0, k + 1) =~= fv.subrange(0, k as int).push(found@[k as int]@));
                    k = k + 1;
                }
                assert(fv.subrange(0, k as int) =~= fv);
                let ghost ev = faults(errs@);
                self.result.sources.push((src, errs));
                proof {
                    assert(self.result@ =~= r0.push((srcv, ev)));
                    self.probed@ = pr0.push(existing@);
                    self.opened@ = op0.insert(srcv.path);
                    let pr1 = self.probed@;
                    let op1 = self.opened@;
                    let jn = r0.len() as int;
                    assert(pr1[jn] == existing@);
                    assert forall|i: int| 0 <= i < fv.len() implies found_in_run(#[trigger] fv[i], op1, pr1) by {
                        assert(on_disk(pr1[jn], fv[i].path));
                    }
                    let q1 = descs(self.queue@);
                    assert forall|i: int| 0 <= i < q1.len() implies found_in_run(#[trigger] q1[i], op1, pr1) by {
                        if i < q0.len() {
                            if r0.len() > 0 {
                                lemma_found_in_run_grows(q0[i], op0, pr0, op1, pr1);
                            }
                            assert(q1[i] == q0[i]);
                        } else {
                            assert(q1[i] == fv[i - q0.len()]);
                        }
                    }
                    assert forall|j: int| 1 <= j < self.result@.len() implies found_in_run(
                        #[trigger] self.result@[j].0,
                        op1,
                        pr1,
                    ) by {
                        if j < r0.len() {
                            lemma_found_in_run_grows(r0[j].0, op0, pr0, op1, pr1);
                            assert(self.result@[j] == r0[j]);
                        } else {
                            lemma_found_in_run_grows(srcv, op0, pr0, op1, pr1);
                        }
                    }
                    assert forall|j: int, k: int|
                        0 <= j < self.result@.len() && 0 <= k < self.result@[j].1.len()
                            && (#[trigger] self.result@[j].1[k]) is MissingFile implies !on_disk(
                        self.probed@[j],
                        self.result@[j].1[k]->MissingFile_0.path,
                    ) by {
                        if j < r0.len() {
                            assert(self.result@[j] == r0[j]);
                            assert(pr1[j] == pr0[j]);
                        } else {
                            assert(self.result@[j].1 == ev);
                        }
                    }
                }
            },
        }
    }

    /// Records that the file in progress could not be read.
    pub fn record_unreadable(&mut self, message: String)
        requires
            old(self).laws_hold(),
        ensures
            final(self).laws_hold(),
            final(self).current is None,
            final(self).queue@ == old(self).queue@,
            final(self).result@ == match old(self).current {
                None => old(self).result@,
                Some(src) => old(self).result@.push((src@, seq![Fault::IO(message@)])),
            },
    {
        self.record_failure(Error::IO(message));
    }

    /// Records that the file in progress could not be parsed.
    pub fn record_unparsable(&mut self, message: String)
        requires
            old(self).laws_hold(),
        ensures
            final(self).laws_hold(),
            final(self).current is None,
            final(self).queue@ == old(self).queue@,
            final(self).result@ == match old(self).current {
                None => old(self).result@,
                Some(src) => old(self).result@.push((src@, seq![Fault::Syn(message@)])),
            },
    {
        self.record_failure(Error::Syn(message));
    }

    fn record_failure(&mut self, e: Error)
        requires
            old(self).laws_hold(),
            !(e is MissingFile),
        ensures
            final(self).laws_hold(),
            final(self).current is None,
            final(self).queue@ == old(self).queue@,
            final(self).result@ == match old(self).current {
                None => old(self).result@,
                Some(src) => old(self).result@.push((src@, seq![e@])),
            },
    {
        let src = match self.current.take() {
            None => {
                return;
            },
            Some(src) => src,
        };
        let ghost q0 = descs(self.queue@);
        let ghost r0 = self.result@;
        let ghost pr0 = self.probed@;
        let ghost op0 = self.opened@;
        let ghost srcv = src@;
        let ghost ev = e@;
        let mut errs: Vec<Error> = Vec::new();
        errs.push(e);
        assert(faults(errs@) =~= seq![ev]);
        self.result.sources.push((src, errs));
        proof {
            assert(self.result@ =~= r0.push((srcv, seq![ev])));
            self.probed@ = pr0.push(seq![]);
            assert forall|j: int| 1 <= j < self.result@.len() implies found_in_run(
                #[trigger] self.result@[j].0,
                op0,
                self.probed@,
            ) by {
                if j < r0.len() {
                    lemma_found_in_run_grows(r0[j].0, op0, pr0, op0, self.probed@);
                    assert(self.result@[j] == r0[j]);
                } else {
                    lemma_found_in_run_grows(srcv, op0, pr0, op0, self.probed@);
                }
            }
            assert forall|i: int| 0 <= i < q0.len() implies found_in_run(#[trigger] q0[i], op0, self.probed@) by {
                if r0.len() > 0 {
                    lemma_found_in_run_grows(q0[i], op0, pr0, op0, self.probed@);
                }
            }
            assert forall|j: int, k: int|
                0 <= j < self.result@.len() && 0 <= k < self.result@[j].1.len()
                    && (#[trigger] self.result@[j].1[k]) is MissingFile implies !on_disk(
                self.probed@[j],
                self.result@[j].1[k]->MissingFile_0.path,
            ) by {
                if j < r0.len() {
                    assert(self.result@[j] == r0[j]);
                    assert(self.probed@[j] == pr0[j]);
                } else {
                    assert(self.result@[j].1 == seq![ev]);
                }
            }
        }
    }

    /// Whether no file is left to visit.
    pub fn is_done(&self) -> (r: bool)
        ensures
            r == (self.queue@.len() == 0 && self.current is None),
    {
        self.queue.len() == 0 && self.current.is_none()
    }

    /// The files visited, with their errors.
    pub fn into_result(self) -> (r: SourcesAndErrors)
        ensures
            r@ == self.result@,
    {
        self.result
    }
}

} // verus!
