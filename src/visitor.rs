//! The walk over one file's syntax: what each module declaration and each
//! macro asks to be looked up, in traversal order.
use crate::cfg_if::{block_at, cfg_if_from, parse_cfg_if, parses_from, CfgExpr, CfgIf};
use crate::error::{faults, Error, Fault};
use crate::mod_path::{
    anchored, candidates, decoded_overrides, get_possible_segments, lowered_segments,
    override_errors, ModPath, ModPathView, ModSegment, ModStack, Segment,
};
use crate::path::{join, join_path, parent, parent_path};
use crate::source_desc::{DescView, FileKind, SourceFileDesc, SourceFileType};
use crate::syntax::{decode_str_literal, literal_value, macro_name, MacroCall, ModItem, Node, Token};
use vstd::prelude::*;

verus! {

/// Something a file's syntax asks to be looked up on disk.
#[derive(Debug)]
pub enum Lookup {
    /// The files a module declaration may resolve to, in the order tried.
    Module(Vec<ModPath>),
    /// A file named by an inclusion macro.
    File(SourceFileDesc),
    /// A failure that needs no lookup.
    Unresolved(Error),
}

/// The mathematical value of a [`Lookup`].
pub enum LookupView {
    Module(Seq<ModPathView>),
    File(DescView),
    Unresolved(Fault),
}

impl View for Lookup {
    type V = LookupView;

    open spec fn view(&self) -> LookupView {
        match self {
            Lookup::Module(c) => LookupView::Module(c@.map_values(|m: ModPath| m@)),
            Lookup::File(d) => LookupView::File(d@),
            Lookup::Unresolved(e) => LookupView::Unresolved(e@),
        }
    }
}

pub open spec fn lookups(v: Seq<Lookup>) -> Seq<LookupView> {
    v.map_values(|l: Lookup| l@)
}

pub open spec fn include_str_name() -> Seq<char> {
    seq!['i', 'n', 'c', 'l', 'u', 'd', 'e', '_', 's', 't', 'r']
}

pub open spec fn include_bytes_name() -> Seq<char> {
    seq!['i', 'n', 'c', 'l', 'u', 'd', 'e', '_', 'b', 'y', 't', 'e', 's']
}

pub open spec fn include_name() -> Seq<char> {
    seq!['i', 'n', 'c', 'l', 'u', 'd', 'e']
}

pub open spec fn cfg_if_name() -> Seq<char> {
    seq!['c', 'f', 'g', '_', 'i', 'f']
}

/// The kind of file an inclusion macro of this name brings in.
pub open spec fn include_kind(name: Seq<char>, stack: Seq<Segment>) -> Option<FileKind> {
    if name == include_str_name() {
        Some(FileKind::Text)
    } else if name == include_bytes_name() {
        Some(FileKind::Bytes)
    } else if name == include_name() {
        Some(FileKind::Snippet(stack))
    } else {
        None
    }
}

/// The file that the including file's directory and the macro's literal
/// argument name; an error naming the macro when the argument is not a
/// string literal.
pub open spec fn include_view(
    stack: Seq<Segment>,
    kind: FileKind,
    arg: Option<Seq<char>>,
    text: Seq<char>,
) -> LookupView {
    match arg {
        Some(p) => LookupView::File(
            DescView { path: join(parent(stack[0]->ModPath_0.path), p), kind, parent: None },
        ),
        None => LookupView::Unresolved(Fault::UnresolvedIncludeArg(text)),
    }
}

/// The lookups of `nodes`, visited in order with the module stack `stack`.
pub open spec fn walk_nodes(nodes: Seq<Node>, stack: Seq<Segment>) -> Seq<LookupView>
    decreases nodes, 0int,
{
    if nodes.len() == 0 {
        seq![]
    } else {
        walk_nodes(nodes.drop_last(), stack) + walk_node(nodes.last(), stack)
    }
}

/// The lookups of one node.
pub open spec fn walk_node(node: Node, stack: Seq<Segment>) -> Seq<LookupView>
    decreases node, 0int,
{
    match node {
        Node::Mod(m) => {
            let ov = decoded_overrides(m.attrs@);
            override_errors(ov).map_values(|f: Fault| LookupView::Unresolved(f)) + walk_segments(
                m,
                lowered_segments(m.ident@, m.content is Some, ov),
                stack,
            )
        },
        Node::Macro(c) => {
            let name = macro_name(c);
            if name == cfg_if_name() {
                if cfg_if_from(c.tokens@, 0) {
                    walk_cfg(c.tokens@, 0, stack)
                } else {
                    seq![LookupView::Unresolved(Fault::Syn(c.text@))]
                }
            } else {
                match include_kind(name, stack) {
                    Some(kind) => seq![include_view(stack, kind, literal_value(c.body@), c.text@)],
                    None => seq![],
                }
            }
        },
    }
}

/// The lookups of a module declaration, tried once for each of its segments.
pub open spec fn walk_segments(m: ModItem, segs: Seq<Segment>, stack: Seq<Segment>) -> Seq<LookupView>
    decreases m, segs.len(),
{
    if segs.len() == 0 {
        seq![]
    } else {
        let inner = stack.push(segs.last());
        walk_segments(m, segs.drop_last(), stack) + match m.content {
            None => seq![LookupView::Module(candidates(inner))],
            Some(items) => walk_nodes(items@, inner),
        }
    }
}

/// The lookups of every branch of the conditional arm at token `i`.
pub open spec fn walk_cfg(t: Seq<Token>, i: int, stack: Seq<Segment>) -> Seq<LookupView>
    decreases t, t.len() - i,
{
    let then = if block_at(t, i + 3) {
        walk_nodes(t[i + 3]->Block_0@, stack)
    } else {
        seq![]
    };
    if i < 0 || i + 4 >= t.len() {
        then
    } else if block_at(t, i + 5) {
        then + walk_nodes(t[i + 5]->Block_0@, stack)
    } else {
        then + walk_cfg(t, i + 5, stack)
    }
}

/// Walks one file's syntax with a stack of module scopes, collecting the
/// lookups it asks for.
pub struct SourceFinder {
    pub lookups: Vec<Lookup>,
    pub mod_stack: ModStack,
}

impl SourceFinder {
    /// A walk over the file that `mod_path` names.
    pub fn from_mod_path(mod_path: ModPath) -> (r: Self)
        ensures
            r.lookups@.len() == 0,
            r.mod_stack@ == seq![Segment::ModPath(mod_path@)],
    {
        let ghost m = mod_path@;
        let mut v: Vec<ModSegment> = Vec::new();
        v.push(ModSegment::ModPath(mod_path));
        let r = Self::new(ModStack::from_segments(v));
        assert(r.mod_stack@ =~= seq![Segment::ModPath(m)]);
        r
    }

    /// A walk that starts from the scopes `mod_stack`.
    pub fn new(mod_stack: ModStack) -> (r: Self)
        requires
            anchored(mod_stack@),
        ensures
            r.lookups@.len() == 0,
            r.mod_stack@ == mod_stack@,
    {
        SourceFinder { lookups: Vec::new(), mod_stack }
    }

    /// The lookup for an inclusion macro of file kind `kind` whose argument
    /// decoded to `arg`; `text` is the macro as written.
    pub fn include_lookup(stack: &ModStack, kind: SourceFileType, arg: Option<String>, text: &String) -> (r: Lookup)
        requires
            anchored(stack@),
        ensures
            r@ == include_view(
                stack@,
                kind@,
                match arg {
                    Some(a) => Some(a@),
                    None => None,
                },
                text@,
            ),
    {
        match arg {
            Some(a) => {
                let dir = parent_path(stack.parent_file_path().as_str());
                let path = join_path(dir.as_str(), a.as_str());
                Lookup::File(SourceFileDesc::new(path, kind, None))
            },
            None => Lookup::Unresolved(Error::UnresolvedIncludeArg(text.clone())),
        }
    }

    /// Visits `nodes` in order.
    pub fn visit_nodes(&mut self, nodes: &Vec<Node>)
        requires
            anchored(old(self).mod_stack@),
        ensures
            final(self).mod_stack@ == old(self).mod_stack@,
            lookups(final(self).lookups@) == lookups(old(self).lookups@) + walk_nodes(
                nodes@,
                old(self).mod_stack@,
            ),
        decreases nodes@, 0int,
    {
        let ghost stack = self.mod_stack@;
        let ghost start = lookups(self.lookups@);
        let n = nodes.len();
        let mut i: usize = 0;
        assert(nodes@.subrange(0, 0) =~= Seq::<Node>::empty());
        assert(start + walk_nodes(Seq::<Node>::empty(), stack) =~= start);
        while i < n
            invariant
                n == nodes@.len(),
                i <= n,
                self.mod_stack@ == stack,
                anchored(stack),
                lookups(self.lookups@) == start + walk_nodes(nodes@.subrange(0, i as int), stack),
            decreases n - i,
        {
            self.visit_node(&nodes[i]);
            proof {
                let pre = nodes@.subrange(0, i + 1);
                assert(pre.drop_last() =~= nodes@.subrange(0, i as int));
                assert(pre.last() == nodes@[i as int]);
                assert(lookups(self.lookups@) =~= start + walk_nodes(pre, stack));
            }
            i = i + 1;
        }
        assert(nodes@.subrange(0, n as int) =~= nodes@);
    }

    fn visit_node(&mut self, node: &Node)
        requires
            anchored(old(self).mod_stack@),
        ensures
            final(self).mod_stack@ == old(self).mod_stack@,
            lookups(final(self).lookups@) == lookups(old(self).lookups@) + walk_node(
                *node,
                old(self).mod_stack@,
            ),
        decreases *node, 0int,
    {
        match node {
            Node::Mod(m) => self.visit_item_mod(m),
            Node::Macro(c) => self.visit_macro(c),
        }
    }

    fn push_lookup(&mut self, l: Lookup)
        ensures
            final(self).mod_stack == old(self).mod_stack,
            lookups(final(self).lookups@) == lookups(old(self).lookups@).push(l@),
    {
        self.lookups.push(l);
        assert(lookups(self.lookups@) =~= lookups(old(self).lookups@).push(l@));
    }

    /// Visits a module declaration: each of its segments is pushed in turn,
    /// and either resolved to candidate files or, for an inline body, walked.
    pub fn visit_item_mod(&mut self, m: &ModItem)
        requires
            anchored(old(self).mod_stack@),
        ensures
            final(self).mod_stack@ == old(self).mod_stack@,
            lookups(final(self).lookups@) == lookups(old(self).lookups@) + walk_node(
                Node::Mod(*m),
                old(self).mod_stack@,
            ),
        decreases *m, 0int,
    {
        let ghost stack = self.mod_stack@;
        let ghost start = lookups(self.lookups@);
        let ghost ov = decoded_overrides(m.attrs@);
        let (segments, unresolved) = get_possible_segments(m);
        let ghost errs = override_errors(ov).map_values(|f: Fault| LookupView::Unresolved(f));
        assert(errs.len() == unresolved@.len());
        let mut k: usize = 0;
        while k < unresolved.len()
            invariant
                k <= unresolved@.len(),
                errs.len() == unresolved@.len(),
                errs == override_errors(ov).map_values(|f: Fault| LookupView::Unresolved(f)),
                faults(unresolved@) == override_errors(ov),
                self.mod_stack@ == stack,
                lookups(self.lookups@) =~= start + errs.subrange(0, k as int),
            decreases unresolved@.len() - k,
        {
            self.push_lookup(Lookup::Unresolved(unresolved[k].duplicate()));
            assert(faults(unresolved@)[k as int] == unresolved@[k as int]@);
            assert(errs[k as int] == LookupView::Unresolved(unresolved@[k as int]@));
            assert(errs.subrange(0, k + 1) =~= errs.subrange(0, k as int).push(errs[k as int]));
            k = k + 1;
        }
        assert(errs.subrange(0, k as int) =~= errs);
        let ghost segs = lowered_segments(m.ident@, m.content is Some, ov);
        let n = segments.len();
        let mut j: usize = 0;
        assert(segs.subrange(0, 0) =~= Seq::<Segment>::empty());
        while j < n
            invariant
                n == segments@.len(),
                j <= n,
                segments@.map_values(|s: ModSegment| s@) == segs,
                self.mod_stack@ == stack,
                anchored(stack),
                lookups(self.lookups@) =~= start + errs + walk_segments(*m, segs.subrange(0, j as int), stack),
            decreases n - j,
        {
            let seg = segments[j].duplicate();
            self.mod_stack.push(seg);
            let ghost inner = self.mod_stack@;
            assert(inner == stack.push(segs[j as int]));
            match &m.content {
                None => {
                    let c = self.mod_stack.get_mod_path_candidates();
                    self.push_lookup(Lookup::Module(c));
                },
                Some(items) => {
                    self.visit_nodes(items);
                },
            }
            self.mod_stack.pop();
            proof {
                let pre = segs.subrange(0, j + 1);
                assert(pre.drop_last() =~= segs.subrange(0, j as int));
                assert(pre.last() == segs[j as int]);
                assert(self.mod_stack@ =~= stack);
            }
            j = j + 1;
        }
        assert(segs.subrange(0, n as int) =~= segs);
    }

    /// Visits a macro invocation: every branch of a `cfg_if!` (or a syntax
    /// error naming it when its body does not parse), or the file an
    /// inclusion macro names; other macros are passed over.
    pub fn visit_macro(&mut self, c: &MacroCall)
        requires
            anchored(old(self).mod_stack@),
        ensures
            final(self).mod_stack@ == old(self).mod_stack@,
            lookups(final(self).lookups@) == lookups(old(self).lookups@) + walk_node(
                Node::Macro(*c),
                old(self).mod_stack@,
            ),
        decreases *c, 0int,
    {
        let ghost start = lookups(self.lookups@);
        proof {
            reveal_strlit("cfg_if");
            reveal_strlit("include_str");
            reveal_strlit("include_bytes");
            reveal_strlit("include");
            assert("cfg_if"@ =~= cfg_if_name());
            assert("include_str"@ =~= include_str_name());
            assert("include_bytes"@ =~= include_bytes_name());
            assert("include"@ =~= include_name());
        }
        let name = c.name();
        if name == "cfg_if".to_owned() {
            match parse_cfg_if(&c.tokens) {
                Some(cfg) => self.process_cfg_if(&c.tokens, &cfg),
                None => self.push_lookup(Lookup::Unresolved(Error::Syn(c.text.clone()))),
            }
            return;
        }
        let kind = if name == "include_str".to_owned() {
            SourceFileType::String
        } else if name == "include_bytes".to_owned() {
            SourceFileType::Bytes
        } else if name == "include".to_owned() {
            SourceFileType::RustSnippet(self.mod_stack.duplicate())
        } else {
            assert(start + seq![] =~= start);
            return;
        };
        let arg = decode_str_literal(c.body.as_str());
        let l = Self::include_lookup(&self.mod_stack, kind, arg, &c.text);
        self.push_lookup(l);
    }

    /// Visits every branch of a parsed conditional, whatever its attribute.
    pub fn process_cfg_if(&mut self, t: &Vec<Token>, node: &CfgIf)
        requires
            anchored(old(self).mod_stack@),
            parses_from(t@, node.if_token as int, *node),
        ensures
            final(self).mod_stack@ == old(self).mod_stack@,
            lookups(final(self).lookups@) == lookups(old(self).lookups@) + walk_cfg(
                t@,
                node.if_token as int,
                old(self).mod_stack@,
            ),
        decreases t@, t@.len() - node.if_token,
    {
        let ghost start = lookups(self.lookups@);
        let ghost stack = self.mod_stack@;
        match &t[node.then_branch] {
            Token::Block(items) => self.visit_nodes(items),
            _ => {},
        }
        let ghost mid = lookups(self.lookups@);
        match &node.else_branch {
            None => {},
            Some(e) => {
                proof {
                    assert(parses_from(t@, node.if_token as int, *node));
                }
                match &**e {
                CfgExpr::Block(k) => match &t[*k] {
                    Token::Block(items) => self.visit_nodes(items),
                    _ => {},
                },
                CfgExpr::If(d) => {
                    assert(parses_from(t@, node.if_token + 5, *d));
                    self.process_cfg_if(t, d)
                },
            }},
        }
        assert(lookups(self.lookups@) =~= start + walk_cfg(t@, node.if_token as int, stack));
    }
}

} // verus!
