//! Settling a file's lookups against the files that exist.
use crate::error::{faults, Error, Fault};
use crate::mod_path::{first_on_disk, is_on_disk, missing, on_disk, resolve_candidates, source_of, ModPath, ModPathView};
use crate::source_desc::{DescView, SourceFileDesc};
use crate::visitor::{lookups, Lookup, LookupView};
use vstd::prelude::*;

verus! {

pub open spec fn descs(v: Seq<SourceFileDesc>) -> Seq<DescView> {
    v.map_values(|d: SourceFileDesc| d@)
}

/// The descriptors found and the errors met when `ls` is settled against
/// `existing`: a module lookup yields its first existing candidate, or one
/// missing-file error per candidate; a file lookup yields its file, or a
/// missing-file error; a failure is passed on.
pub open spec fn settled(ls: Seq<LookupView>, existing: Seq<String>) -> (Seq<DescView>, Seq<Fault>)
    decreases ls.len(),
{
    if ls.len() == 0 {
        (seq![], seq![])
    } else {
        let (d, e) = settled(ls.drop_last(), existing);
        match ls.last() {
            LookupView::Module(c) => match first_on_disk(c, existing) {
                Some(m) => (d.push(source_of(m)), e),
                None => (d, e + c.map_values(|m: ModPathView| missing(m))),
            },
            LookupView::File(f) => if on_disk(existing, f.path) {
                (d.push(f), e)
            } else {
                (d, e.push(Fault::MissingFile(f)))
            },
            LookupView::Unresolved(f) => (d, e.push(f)),
        }
    }
}

/// `d` with `p` as the file that named it.
pub open spec fn with_parent(d: DescView, p: Seq<char>) -> DescView {
    DescView { path: d.path, kind: d.kind, parent: Some(p) }
}

/// The files found when the lookups `ls` of the file at `parent` are
/// settled against `existing`, each recorded as named by `parent`.
pub open spec fn found_files(ls: Seq<LookupView>, existing: Seq<String>, parent: Seq<char>) -> Seq<DescView> {
    settled(ls, existing).0.map_values(|d: DescView| with_parent(d, parent))
}

/// Every path that the lookups `ls` probe, in order.
pub open spec fn probes(ls: Seq<LookupView>) -> Seq<Seq<char>>
    decreases ls.len(),
{
    if ls.len() == 0 {
        seq![]
    } else {
        probes(ls.drop_last()) + match ls.last() {
            LookupView::Module(c) => c.map_values(|m: ModPathView| m.path),
            LookupView::File(f) => seq![f.path],
            LookupView::Unresolved(_) => seq![],
        }
    }
}

/// Settles `ls` against `existing`.
pub fn settle(ls: &Vec<Lookup>, existing: &Vec<String>) -> (r: (Vec<SourceFileDesc>, Vec<Error>))
    ensures
        descs(r.0@) == settled(lookups(ls@), existing@).0,
        faults(r.1@) == settled(lookups(ls@), existing@).1,
{
    let ghost lv = lookups(ls@);
    let mut found: Vec<SourceFileDesc> = Vec::new();
    let mut errors: Vec<Error> = Vec::new();
    let n = ls.len();
    let mut i: usize = 0;
    assert(lv.subrange(0, 0) =~= Seq::<LookupView>::empty());
    while i < n
        invariant
            n == ls@.len(),
            i <= n,
            lv == lookups(ls@),
            descs(found@) =~= settled(lv.subrange(0, i as int), existing@).0,
            faults(errors@) =~= settled(lv.subrange(0, i as int), existing@).1,
        decreases n - i,
    {
        let ghost pre = lv.subrange(0, i + 1);
        proof {
            assert(pre.drop_last() =~= lv.subrange(0, i as int));
            assert(pre.last() == ls@[i as int]@);
        }
        let ghost d0 = descs(found@);
        let ghost e0 = faults(errors@);
        match &ls[i] {
            Lookup::Module(c) => match resolve_candidates(c, existing) {
                Ok(m) => {
                    found.push(m.into_source());
                    assert(descs(found@) =~= d0.push(descs(found@).last()));
                },
                Err(errs) => {
                    let mut k: usize = 0;
                    while k < errs.len()
                        invariant
                            k <= errs@.len(),
                            faults(errors@) =~= e0 + faults(errs@).subrange(0, k as int),
                        decreases errs@.len() - k,
                    {
                        let ghost prev = errors@;
                        let e = errs[k].duplicate();
                        errors.push(e);
                        assert(errors@ == prev.push(e));
                        assert(faults(errors@) =~= faults(prev).push(e@));
                        assert(faults(errs@).subrange(0, k + 1) =~= faults(errs@).subrange(0, k as int).push(
                            errs@[k as int]@,
                        ));
                        k = k + 1;
                    }
                    assert(faults(errs@).subrange(0, k as int) =~= faults(errs@));
                },
            },
            Lookup::File(f) => {
                if is_on_disk(existing, &f.path) {
                    found.push(f.duplicate());
                    assert(descs(found@) =~= d0.push(f@));
                } else {
                    errors.push(Error::MissingFile(f.duplicate()));
                    assert(faults(errors@) =~= e0.push(Fault::MissingFile(f@)));
                }
            },
            Lookup::Unresolved(e) => {
                errors.push(e.duplicate());
                assert(faults(errors@) =~= e0.push(e@));
            },
        }
        i = i + 1;
    }
    assert(lv.subrange(0, n as int) =~= lv);
    (found, errors)
}

/// Records `path` as the file that named each of `source_descs`.
pub fn propagate_parent_file(path: &String, source_descs: &mut Vec<SourceFileDesc>)
    ensures
        descs(final(source_descs)@) == descs(old(source_descs)@).map_values(
            |d: DescView| with_parent(d, path@),
        ),
{
    let ghost before = descs(source_descs@);
    let n = source_descs.len();
    let mut i: usize = 0;
    while i < n
        invariant
            n == source_descs@.len(),
            i <= n,
            before.len() == n,
            forall|j: int| 0 <= j < i ==> #[trigger] descs(source_descs@)[j] == with_parent(before[j], path@),
            forall|j: int| i <= j < n ==> #[trigger] descs(source_descs@)[j] == before[j],
        decreases n - i,
    {
        let ghost prev = source_descs@;
        let d = source_descs[i].duplicate();
        assert(descs(source_descs@)[i as int] == source_descs@[i as int]@);
        assert(d@ == before[i as int]);
        let updated = SourceFileDesc::new(d.path, d.file_type, Some(path.clone()));
        assert(updated@ == with_parent(before[i as int], path@));
        source_descs.set(i, updated);
        assert(source_descs@ == prev.update(i as int, updated));
        assert forall|j: int| 0 <= j < n implies #[trigger] descs(source_descs@)[j] == (if j == i {
            updated@
        } else {
            descs(prev)[j]
        }) by {}
        i = i + 1;
    }
    assert(descs(source_descs@) =~= before.map_values(|d: DescView| with_parent(d, path@)));
}

/// Every path that `ls` probes.
pub fn probe_paths(ls: &Vec<Lookup>) -> (r: Vec<String>)
    ensures
        r@.map_values(|s: String| s@) == probes(lookups(ls@)),
{
    let ghost lv = lookups(ls@);
    let mut out: Vec<String> = Vec::new();
    let n = ls.len();
    let mut i: usize = 0;
    assert(lv.subrange(0, 0) =~= Seq::<LookupView>::empty());
    while i < n
        invariant
            n == ls@.len(),
            i <= n,
            lv == lookups(ls@),
            out@.map_values(|s: String| s@) =~= probes(lv.subrange(0, i as int)),
        decreases n - i,
    {
        let ghost pre = lv.subrange(0, i + 1);
        let ghost earlier = out@.map_values(|s: String| s@);
        proof {
            assert(pre.drop_last() =~= lv.subrange(0, i as int));
            assert(pre.last() == ls@[i as int]@);
        }
        match &ls[i] {
            Lookup::Module(c) => {
                let mut k: usize = 0;
                while k < c.len()
                    invariant
                        k <= c@.len(),
                        out@.map_values(|s: String| s@) =~= earlier + c@.subrange(0, k as int).map_values(
                            |m: ModPath| m.path@,
                        ),
                    decreases c@.len() - k,
                {
                    let ghost prev = out@;
                    let p = c[k].path.clone();
                    out.push(p);
                    assert(out@ == prev.push(p));
                    assert(out@.map_values(|s: String| s@) =~= prev.map_values(|s: String| s@).push(p@));
                    assert(c@.subrange(0, k + 1).map_values(|m: ModPath| m.path@) =~= c@.subrange(
                        0,
                        k as int,
                    ).map_values(|m: ModPath| m.path@).push(c@[k as int].path@));
                    k = k + 1;
                }
                assert(c@.subrange(0, k as int) =~= c@);
                assert(c@.map_values(|m: ModPath| m.path@) =~= c@.map_values(|m: ModPath| m@).map_values(
                    |m: ModPathView| m.path,
                ));
            },
            Lookup::File(f) => {
                out.push(f.path.clone());
                assert(out@.map_values(|s: String| s@) =~= earlier + seq![f.path@]);
            },
            Lookup::Unresolved(_) => {
                assert(earlier + seq![] =~= earlier);
            },
        }
        i = i + 1;
    }
    assert(lv.subrange(0, n as int) =~= lv);
    out
}

} // verus!
