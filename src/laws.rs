//! Laws of discovery, proved over the specifications of the walk and of
//! settling lookups against the disk.
use crate::cfg_if::{arm_at, block_at, cfg_if_from, word_at};
use crate::error::Fault;
use crate::mod_path::{
    candidates, decoded_overrides, first_on_disk, lowered_segments,
    missing, on_disk, override_errors, source_of, ModPathView, Segment,
};
use crate::settle::{found_files, settled};
use crate::source_desc::{DescView, ModType};
use crate::syntax::{macro_name, Attr, MacroCall, ModItem, Node, Token};
use crate::visitor::{cfg_if_name, walk_cfg, walk_node, walk_nodes, walk_segments, LookupView};
use vstd::prelude::*;

verus! {

/// `part` occurs as a contiguous run inside `whole`.
pub open spec fn is_infix<A>(part: Seq<A>, whole: Seq<A>) -> bool {
    exists|p: int| 0 <= p && p + part.len() <= whole.len() && #[trigger] whole.subrange(p, p + part.len()) == part
}

/// No lookup carries a missing-file error of its own: those arise only when
/// lookups are settled.
pub open spec fn no_unresolved_missing(ls: Seq<LookupView>) -> bool {
    forall|i: int| 0 <= i < ls.len() && #[trigger] ls[i] is Unresolved ==> !(ls[i]->Unresolved_0 is MissingFile)
}

proof fn lemma_first_on_disk(c: Seq<ModPathView>, ex: Seq<String>)
    ensures
        match first_on_disk(c, ex) {
            Some(m) => on_disk(ex, m.path),
            None => forall|i: int| 0 <= i < c.len() ==> !on_disk(ex, #[trigger] c[i].path),
        },
    decreases c.len(),
{
    if c.len() > 0 && !on_disk(ex, c[0].path) {
        lemma_first_on_disk(c.drop_first(), ex);
        if first_on_disk(c, ex) is None {
            assert forall|i: int| 0 <= i < c.len() implies !on_disk(ex, #[trigger] c[i].path) by {
                if i > 0 {
                    assert(c.drop_first()[i - 1] == c[i]);
                }
            }
        }
    }
}

/// Every file that settling finds is one of the files that exist.
pub proof fn lemma_found_files_exist(ls: Seq<LookupView>, ex: Seq<String>)
    ensures
        forall|i: int|
            0 <= i < settled(ls, ex).0.len() ==> on_disk(ex, #[trigger] settled(ls, ex).0[i].path),
    decreases ls.len(),
{
    if ls.len() > 0 {
        lemma_found_files_exist(ls.drop_last(), ex);
        match ls.last() {
            LookupView::Module(c) => lemma_first_on_disk(c, ex),
            _ => {},
        }
    }
}

/// Every file found while visiting the file at `parent` records `parent` as
/// the file that named it, and exists.
pub proof fn lemma_found_files_name_their_parent(ls: Seq<LookupView>, ex: Seq<String>, parent: Seq<char>)
    ensures
        forall|i: int|
            0 <= i < found_files(ls, ex, parent).len() ==> (#[trigger] found_files(ls, ex, parent)[i]).parent
                == Some(parent) && on_disk(ex, found_files(ls, ex, parent)[i].path),
{
    lemma_found_files_exist(ls, ex);
    assert forall|i: int| 0 <= i < found_files(ls, ex, parent).len() implies on_disk(
        ex,
        (#[trigger] found_files(ls, ex, parent)[i]).path,
    ) by {
        assert(found_files(ls, ex, parent)[i].path == settled(ls, ex).0[i].path);
    }
}

/// Every missing-file error that settling reports names a path that does not
/// exist.
pub proof fn lemma_missing_files_are_absent(ls: Seq<LookupView>, ex: Seq<String>)
    requires
        no_unresolved_missing(ls),
    ensures
        forall|i: int|
            0 <= i < settled(ls, ex).1.len() && (#[trigger] settled(ls, ex).1[i]) is MissingFile ==> !on_disk(
                ex,
                settled(ls, ex).1[i]->MissingFile_0.path,
            ),
    decreases ls.len(),
{
    if ls.len() > 0 {
        let pre = ls.drop_last();
        assert(no_unresolved_missing(pre)) by {
            assert forall|i: int| 0 <= i < pre.len() && #[trigger] pre[i] is Unresolved implies !(
            pre[i]->Unresolved_0 is MissingFile) by {
                assert(pre[i] == ls[i]);
            }
        }
        lemma_missing_files_are_absent(pre, ex);
        match ls.last() {
            LookupView::Module(c) => lemma_first_on_disk(c, ex),
            LookupView::Unresolved(f) => {
                assert(ls[ls.len() - 1] is Unresolved);
            },
            _ => {},
        }
    }
}

proof fn lemma_settled_prefix(ls: Seq<LookupView>, ex: Seq<String>, j: int)
    requires
        0 <= j <= ls.len(),
    ensures
        settled(ls.subrange(0, j), ex).1.len() <= settled(ls, ex).1.len(),
        settled(ls, ex).1.subrange(0, settled(ls.subrange(0, j), ex).1.len() as int) == settled(
            ls.subrange(0, j),
            ex,
        ).1,
    decreases ls.len(),
{
    if j == ls.len() {
        assert(ls.subrange(0, j) =~= ls);
        assert(settled(ls, ex).1.subrange(0, settled(ls, ex).1.len() as int) =~= settled(ls, ex).1);
    } else {
        let pre = ls.drop_last();
        assert(pre.subrange(0, j) =~= ls.subrange(0, j));
        lemma_settled_prefix(pre, ex, j);
        let e0 = settled(pre, ex).1;
        let e1 = settled(ls, ex).1;
        let k = settled(ls.subrange(0, j), ex).1.len() as int;
        assert(e1.subrange(0, k) =~= e0.subrange(0, k));
    }
}

/// The missing-file errors of a module lookup that found no file stand
/// together, one per candidate, in the order the candidates were tried.
pub proof fn lemma_missing_candidates_stay_together(ls: Seq<LookupView>, ex: Seq<String>, i: int)
    requires
        0 <= i < ls.len(),
        ls[i] is Module,
        first_on_disk(ls[i]->Module_0, ex) is None,
    ensures
        is_infix(ls[i]->Module_0.map_values(|m: ModPathView| missing(m)), settled(ls, ex).1),
{
    let c = ls[i]->Module_0;
    let part = c.map_values(|m: ModPathView| missing(m));
    let upto = ls.subrange(0, i + 1);
    assert(upto.drop_last() =~= ls.subrange(0, i));
    assert(upto.last() == ls[i]);
    lemma_settled_prefix(ls, ex, i + 1);
    let before = settled(ls.subrange(0, i), ex).1;
    let whole = settled(ls, ex).1;
    let p = before.len() as int;
    assert(settled(upto, ex).1 == before + part);
    assert(whole.subrange(p, p + part.len()) =~= part) by {
        assert(whole.subrange(0, p + part.len()) == before + part);
        assert forall|k: int| 0 <= k < part.len() implies whole.subrange(p, p + part.len())[k] == part[k] by {
            assert(whole.subrange(0, p + part.len())[p + k] == whole[p + k]);
        }
    }
}

/// When a named module has both an adjacent file and an index file, the
/// adjacent file is the one found, and the index file is not.
pub proof fn lemma_adjacent_file_takes_precedence(s: Seq<Segment>, ex: Seq<String>)
    requires
        s.len() > 0,
        s.last() is Ident,
        on_disk(ex, candidates(s)[0].path),
    ensures
        candidates(s).len() == 2,
        candidates(s)[0].mod_type == ModType::Adjacent,
        candidates(s)[1].mod_type == ModType::ModRs,
        first_on_disk(candidates(s), ex) == Some(candidates(s)[0]),
        settled(seq![LookupView::Module(candidates(s))], ex).0 == seq![source_of(candidates(s)[0])],
        !settled(seq![LookupView::Module(candidates(s))], ex).0.contains(source_of(candidates(s)[1])),
{
    let ls = seq![LookupView::Module(candidates(s))];
    assert(ls.drop_last() =~= Seq::<LookupView>::empty());
    assert(ls.last() == LookupView::Module(candidates(s)));
    assert(settled(ls.drop_last(), ex).0 =~= Seq::<DescView>::empty());
    let found = settled(ls, ex).0;
    assert(found =~= seq![source_of(candidates(s)[0])]);
    if found.contains(source_of(candidates(s)[1])) {
        assert(found[0] == source_of(candidates(s)[1]));
    }
}

proof fn lemma_first_on_disk_same_files(c: Seq<ModPathView>, e1: Seq<String>, e2: Seq<String>)
    requires
        forall|p: Seq<char>| on_disk(e1, p) == on_disk(e2, p),
    ensures
        first_on_disk(c, e1) == first_on_disk(c, e2),
    decreases c.len(),
{
    if c.len() > 0 {
        lemma_first_on_disk_same_files(c.drop_first(), e1, e2);
    }
}

/// Settling depends only on which paths exist, not on how the list of
/// existing files was gathered or ordered: the same tree settles the same
/// way every time.
pub proof fn lemma_settling_depends_on_existing_files(ls: Seq<LookupView>, e1: Seq<String>, e2: Seq<String>)
    requires
        forall|p: Seq<char>| on_disk(e1, p) == on_disk(e2, p),
    ensures
        settled(ls, e1) == settled(ls, e2),
    decreases ls.len(),
{
    if ls.len() > 0 {
        lemma_settling_depends_on_existing_files(ls.drop_last(), e1, e2);
        match ls.last() {
            LookupView::Module(c) => lemma_first_on_disk_same_files(c, e1, e2),
            _ => {},
        }
    }
}

proof fn lemma_cfg_branch_infix(t: Seq<Token>, i: int, k: int, stack: Seq<Segment>)
    requires
        cfg_if_from(t, i),
        block_at(t, k),
        i <= k,
    ensures
        is_infix(walk_nodes(t[k]->Block_0@, stack), walk_cfg(t, i, stack)),
    decreases t.len() - i,
{
    let part = walk_nodes(t[k]->Block_0@, stack);
    let then = walk_nodes(t[i + 3]->Block_0@, stack);
    let whole = walk_cfg(t, i, stack);
    assert(arm_at(t, i));
    if k == i + 3 {
        let p: int = 0;
        assert(whole.subrange(p, p + part.len()) =~= part);
    } else {
        assert(k >= i + 4);
        assert(word_at(t, i + 4, seq!['e', 'l', 's', 'e']));
        if block_at(t, i + 5) {
            assert(k == i + 5);
            assert(whole == then + part);
            let p: int = then.len() as int;
            assert(whole.subrange(p, p + part.len()) =~= part);
        } else {
            lemma_cfg_branch_infix(t, i + 5, k, stack);
            let rest = walk_cfg(t, i + 5, stack);
            assert(whole == then + rest);
            let p = choose|p: int|
                0 <= p && p + part.len() <= rest.len() && #[trigger] rest.subrange(p, p + part.len()) == part;
            let q = then.len() as int + p;
            assert(whole.subrange(q, q + part.len()) =~= rest.subrange(p, p + part.len()));
        }
    }
}

/// Every branch of a `cfg_if!` is walked, whatever its condition: the
/// lookups of each branch block appear, in one piece, among the macro's.
pub proof fn lemma_cfg_if_walks_every_branch(c: MacroCall, stack: Seq<Segment>, k: int)
    requires
        macro_name(c) == cfg_if_name(),
        cfg_if_from(c.tokens@, 0),
        block_at(c.tokens@, k),
    ensures
        is_infix(walk_nodes(c.tokens@[k]->Block_0@, stack), walk_node(Node::Macro(c), stack)),
{
    lemma_cfg_branch_infix(c.tokens@, 0, k, stack);
}

proof fn lemma_concat_no_missing(a: Seq<LookupView>, b: Seq<LookupView>)
    requires
        no_unresolved_missing(a),
        no_unresolved_missing(b),
    ensures
        no_unresolved_missing(a + b),
{
    assert forall|i: int| 0 <= i < (a + b).len() && #[trigger] (a + b)[i] is Unresolved implies !((a
        + b)[i]->Unresolved_0 is MissingFile) by {
        if i < a.len() {
            assert((a + b)[i] == a[i]);
        } else {
            assert((a + b)[i] == b[i - a.len()]);
        }
    }
}

proof fn lemma_decoded_errors_are_path_attrs(attrs: Seq<Attr>)
    ensures
        forall|i: int|
            0 <= i < decoded_overrides(attrs).len() && (#[trigger] decoded_overrides(attrs)[i]) is Err
                ==> decoded_overrides(attrs)[i]->Err_0 is UnresolvedPathAttr,
    decreases attrs.len(),
{
    if attrs.len() > 0 {
        lemma_decoded_errors_are_path_attrs(attrs.drop_last());
    }
}

proof fn lemma_override_errors_are_path_attrs(ov: Seq<Result<Seq<char>, Fault>>)
    requires
        forall|i: int| 0 <= i < ov.len() && (#[trigger] ov[i]) is Err ==> ov[i]->Err_0 is UnresolvedPathAttr,
    ensures
        forall|i: int|
            0 <= i < override_errors(ov).len() ==> (#[trigger] override_errors(ov)[i]) is UnresolvedPathAttr,
    decreases ov.len(),
{
    if ov.len() > 0 {
        let pre = ov.drop_last();
        assert forall|i: int| 0 <= i < pre.len() && (#[trigger] pre[i]) is Err implies pre[i]->Err_0 is UnresolvedPathAttr by {
            assert(pre[i] == ov[i]);
        }
        lemma_override_errors_are_path_attrs(pre);
        assert(ov[ov.len() - 1] == ov.last());
    }
}

proof fn lemma_walk_nodes_no_missing(nodes: Seq<Node>, stack: Seq<Segment>)
    ensures
        no_unresolved_missing(walk_nodes(nodes, stack)),
    decreases nodes, 0int,
{
    if nodes.len() > 0 {
        lemma_walk_nodes_no_missing(nodes.drop_last(), stack);
        lemma_walk_node_no_missing(nodes.last(), stack);
        lemma_concat_no_missing(walk_nodes(nodes.drop_last(), stack), walk_node(nodes.last(), stack));
    }
}

proof fn lemma_walk_node_no_missing(node: Node, stack: Seq<Segment>)
    ensures
        no_unresolved_missing(walk_node(node, stack)),
    decreases node, 0int,
{
    match node {
        Node::Mod(m) => {
            let ov = decoded_overrides(m.attrs@);
            lemma_decoded_errors_are_path_attrs(m.attrs@);
            lemma_override_errors_are_path_attrs(ov);
            let errs = override_errors(ov).map_values(|f: Fault| LookupView::Unresolved(f));
            assert forall|i: int| 0 <= i < errs.len() && #[trigger] errs[i] is Unresolved implies !(
            errs[i]->Unresolved_0 is MissingFile) by {
                assert(errs[i] == LookupView::Unresolved(override_errors(ov)[i]));
            }
            let segs = lowered_segments(m.ident@, m.content is Some, ov);
            lemma_walk_segments_no_missing(m, segs, stack);
            lemma_concat_no_missing(errs, walk_segments(m, segs, stack));
        },
        Node::Macro(c) => {
            if macro_name(c) == cfg_if_name() {
                if cfg_if_from(c.tokens@, 0) {
                    lemma_walk_cfg_no_missing(c.tokens@, 0, stack);
                }
            } else {
                let w = walk_node(node, stack);
                assert forall|i: int| 0 <= i < w.len() && #[trigger] w[i] is Unresolved implies !(
                w[i]->Unresolved_0 is MissingFile) by {}
            }
        },
    }
}

proof fn lemma_walk_segments_no_missing(m: ModItem, segs: Seq<Segment>, stack: Seq<Segment>)
    ensures
        no_unresolved_missing(walk_segments(m, segs, stack)),
    decreases m, segs.len(),
{
    if segs.len() > 0 {
        let inner = stack.push(segs.last());
        lemma_walk_segments_no_missing(m, segs.drop_last(), stack);
        let tail = match m.content {
            None => seq![LookupView::Module(candidates(inner))],
            Some(items) => walk_nodes(items@, inner),
        };
        match m.content {
            None => {
                assert forall|i: int| 0 <= i < tail.len() && #[trigger] tail[i] is Unresolved implies !(
                tail[i]->Unresolved_0 is MissingFile) by {}
            },
            Some(items) => lemma_walk_nodes_no_missing(items@, inner),
        }
        lemma_concat_no_missing(walk_segments(m, segs.drop_last(), stack), tail);
    }
}

proof fn lemma_walk_cfg_no_missing(t: Seq<Token>, i: int, stack: Seq<Segment>)
    ensures
        no_unresolved_missing(walk_cfg(t, i, stack)),
    decreases t, t.len() - i,
{
    let then = if block_at(t, i + 3) {
        walk_nodes(t[i + 3]->Block_0@, stack)
    } else {
        seq![]
    };
    if block_at(t, i + 3) {
        lemma_walk_nodes_no_missing(t[i + 3]->Block_0@, stack);
    }
    if i < 0 || i + 4 >= t.len() {
    } else if block_at(t, i + 5) {
        lemma_walk_nodes_no_missing(t[i + 5]->Block_0@, stack);
        lemma_concat_no_missing(then, walk_nodes(t[i + 5]->Block_0@, stack));
    } else {
        lemma_walk_cfg_no_missing(t, i + 5, stack);
        lemma_concat_no_missing(then, walk_cfg(t, i + 5, stack));
    }
}

/// Every missing-file error that visiting a file reports names a path that
/// does not exist: the walk itself reports none, and settling reports only
/// absent files.
pub proof fn lemma_visit_reports_only_absent_files(nodes: Seq<Node>, stack: Seq<Segment>, ex: Seq<String>)
    ensures
        forall|i: int|
            0 <= i < settled(walk_nodes(nodes, stack), ex).1.len() && (#[trigger] settled(
                walk_nodes(nodes, stack),
                ex,
            ).1[i]) is MissingFile ==> !on_disk(ex, settled(walk_nodes(nodes, stack), ex).1[i]->MissingFile_0.path),
{
    lemma_walk_nodes_no_missing(nodes, stack);
    lemma_missing_files_are_absent(walk_nodes(nodes, stack), ex);
}

} // verus!
