use srcfiles::cfg_if::parse_cfg_if;
use srcfiles::mod_path::{get_possible_segments, lower_overrides, resolve_candidates};
use srcfiles::path::{join_path, parent_path, stem_of};
use srcfiles::syntax::{Attr, MacroCall, ModItem, Node, Token};
use srcfiles::{
    finder_for, opens_file, probe_paths, probes_for, settle_source, Discovery, Error, Lookup, ModPath, ModSegment, ModStack, ModType,
    SourceFileDesc, SourceFileType, SourceFinder, SourcesAndErrors,
};

fn module(name: &str) -> Node {
    Node::Mod(ModItem { attrs: vec![], ident: name.to_string(), content: None })
}

fn path_attr(literal: &str) -> Attr {
    Attr {
        path: vec!["path".to_string()],
        value: Some(literal.to_string()),
        text: format!("# [path = {}]", literal),
    }
}

fn call(name: &str, body: &str) -> Node {
    Node::Macro(MacroCall {
        path: vec!["core".to_string(), name.to_string()],
        tokens: vec![Token::Literal(body.to_string())],
        body: body.to_string(),
        text: format!("{} ! ({})", name, body),
    })
}

fn cfg_if_call(tokens: Vec<Token>) -> Node {
    Node::Macro(MacroCall {
        path: vec!["cfg_if".to_string()],
        tokens,
        body: String::new(),
        text: "cfg_if ! { }".to_string(),
    })
}

fn word(w: &str) -> Token {
    Token::Ident(w.to_string())
}

fn root_finder(path: &str) -> SourceFinder {
    SourceFinder::from_mod_path(ModPath::new(path.to_string(), ModType::ModRs))
}

/// Visits `nodes` as the file `path` and settles against `existing`.
fn visit(path: &str, nodes: Vec<Node>, existing: &[&str]) -> (Vec<SourceFileDesc>, Vec<Error>) {
    let mut finder = root_finder(path);
    finder.visit_nodes(&nodes);
    let existing: Vec<String> = existing.iter().map(|s| s.to_string()).collect();
    settle_source(&path.to_string(), &finder, &existing)
}

fn paths(descs: &[SourceFileDesc]) -> Vec<String> {
    descs.iter().map(|d| d.path.clone()).collect()
}

fn missing_paths(errors: &[Error]) -> Vec<String> {
    errors
        .iter()
        .filter_map(|e| match e {
            Error::MissingFile(d) => Some(d.path.clone()),
            _ => None,
        })
        .collect()
}

#[test]
fn join_parent_and_stem() {
    assert_eq!(join_path("src", "a.rs"), "src/a.rs");
    assert_eq!(join_path("src/", "a.rs"), "src/a.rs");
    assert_eq!(join_path("", "a.rs"), "a.rs");
    assert_eq!(join_path("src", "/abs/a.rs"), "/abs/a.rs");
    assert_eq!(parent_path("src/a/b.rs"), "src/a");
    assert_eq!(parent_path("main.rs"), "");
    assert_eq!(parent_path("/main.rs"), "/");
    assert_eq!(stem_of("src/foo.rs"), "foo");
    assert_eq!(stem_of("src/.hidden"), ".hidden");
    assert_eq!(stem_of("src/archive.tar.gz"), "archive.tar");
    assert_eq!(stem_of("noext"), "noext");
}

#[test]
fn candidates_for_named_module() {
    let stack = ModStack::from_segments(vec![
        ModSegment::ModPath(ModPath::new("src/lib.rs".to_string(), ModType::ModRs)),
        ModSegment::Ident("n".to_string()),
    ]);
    let c = stack.get_mod_path_candidates();
    assert_eq!(c.len(), 2);
    assert_eq!(c[0].path, "src/n.rs");
    assert!(c[0].mod_type == ModType::Adjacent);
    assert_eq!(c[1].path, "src/n/mod.rs");
    assert!(c[1].mod_type == ModType::ModRs);
}

#[test]
fn adjacent_anchor_adds_its_stem() {
    let stack = ModStack::from_segments(vec![
        ModSegment::ModPath(ModPath::new("src/foo.rs".to_string(), ModType::Adjacent)),
        ModSegment::Ident("bar".to_string()),
    ]);
    let c = stack.get_mod_path_candidates();
    assert_eq!(c[0].path, "src/foo/bar.rs");
    assert_eq!(c[1].path, "src/foo/bar/mod.rs");
}

#[test]
fn inline_path_and_file_segments() {
    let stack = ModStack::from_segments(vec![
        ModSegment::ModPath(ModPath::new("src/main.rs".to_string(), ModType::ModRs)),
        ModSegment::InlinePath("../g".to_string()),
        ModSegment::ModPath(ModPath::new("x.rs".to_string(), ModType::ModRs)),
    ]);
    let c = stack.get_mod_path_candidates();
    assert_eq!(c.len(), 1);
    assert_eq!(c[0].path, "src/../g/x.rs");
}

#[test]
fn adjacent_file_takes_precedence() {
    let (found, errors) = visit("src/lib.rs", vec![module("n")], &["src/n/mod.rs", "src/n.rs"]);
    assert_eq!(paths(&found), vec!["src/n.rs"]);
    assert!(matches!(found[0].file_type, SourceFileType::RustSource(ModType::Adjacent)));
    assert!(errors.is_empty());
}

#[test]
fn index_file_when_adjacent_is_missing() {
    let (found, errors) = visit("src/lib.rs", vec![module("n")], &["src/n/mod.rs"]);
    assert_eq!(paths(&found), vec!["src/n/mod.rs"]);
    assert!(errors.is_empty());
}

#[test]
fn missing_module_reports_both_candidates_together() {
    let (found, errors) = visit("src/lib.rs", vec![module("x"), module("y")], &[]);
    assert!(found.is_empty());
    assert_eq!(
        missing_paths(&errors),
        vec!["src/x.rs", "src/x/mod.rs", "src/y.rs", "src/y/mod.rs"]
    );
}

#[test]
fn found_files_name_their_parent_and_exist() {
    let existing = ["src/a.rs", "src/b/mod.rs"];
    let (found, _) = visit("src/lib.rs", vec![module("a"), module("b")], &existing);
    assert_eq!(found.len(), 2);
    for d in &found {
        assert_eq!(d.parent_file.as_deref(), Some("src/lib.rs"));
        assert!(existing.contains(&d.path.as_str()));
    }
}

#[test]
fn missing_files_do_not_exist() {
    let existing = ["src/a.rs"];
    let (_, errors) = visit("src/lib.rs", vec![module("a"), module("b")], &existing);
    for p in missing_paths(&errors) {
        assert!(!existing.contains(&p.as_str()));
    }
    assert_eq!(errors.len(), 2);
}

#[test]
fn include_str_resolves_against_including_file() {
    let (found, errors) = visit("src/lib.rs", vec![call("include_str", "\"foo.txt\"")], &["src/foo.txt"]);
    assert!(errors.is_empty());
    assert_eq!(paths(&found), vec!["src/foo.txt"]);
    assert!(matches!(found[0].file_type, SourceFileType::String));
}

#[test]
fn include_bytes_gives_bytes() {
    let (found, _) = visit("src/lib.rs", vec![call("include_bytes", "\"logo.png\"")], &["src/logo.png"]);
    assert!(matches!(found[0].file_type, SourceFileType::Bytes));
}

#[test]
fn include_literal_escapes_are_decoded() {
    let (found, errors) = visit("src/lib.rs", vec![call("include_str", "\"a\\x41.txt\"")], &["src/aA.txt"]);
    assert!(errors.is_empty());
    assert_eq!(paths(&found), vec!["src/aA.txt"]);
}

#[test]
fn include_with_missing_file() {
    let (found, errors) = visit("src/lib.rs", vec![call("include_str", "\"none.txt\"")], &[]);
    assert!(found.is_empty());
    assert_eq!(missing_paths(&errors), vec!["src/none.txt"]);
}

#[test]
fn include_with_non_literal_argument() {
    let (found, errors) = visit("src/lib.rs", vec![call("include", "concat ! (\"a\" , \"b\")")], &[]);
    assert!(found.is_empty());
    assert_eq!(errors.len(), 1);
    assert!(matches!(&errors[0], Error::UnresolvedIncludeArg(t) if t.starts_with("include")));
}

#[test]
fn snippet_declarations_resolve_at_inclusion_site() {
    let mut finder = root_finder("src/lib.rs");
    finder.visit_nodes(&vec![call("include", "\"snippet.rs\"")]);
    let (found, _) = settle_source(&"src/lib.rs".to_string(), &finder, &vec!["src/snippet.rs".to_string()]);
    assert_eq!(paths(&found), vec!["src/snippet.rs"]);
    let snippet = &found[0];
    let mut inner = finder_for(snippet).expect("a snippet is visited");
    inner.visit_nodes(&vec![module("u")]);
    let (found, _) = settle_source(&snippet.path, &inner, &vec!["src/u.rs".to_string()]);
    assert_eq!(paths(&found), vec!["src/u.rs"]);
    assert_eq!(found[0].parent_file.as_deref(), Some("src/snippet.rs"));
}

#[test]
fn other_macros_are_ignored() {
    let (found, errors) = visit("src/lib.rs", vec![call("println", "\"x.rs\"")], &["src/x.rs"]);
    assert!(found.is_empty());
    assert!(errors.is_empty());
}

#[test]
fn cfg_if_visits_both_branches() {
    let tokens = vec![
        word("if"),
        Token::Punct('#'),
        Token::Bracket,
        Token::Block(vec![module("u")]),
        word("else"),
        Token::Block(vec![module("w")]),
    ];
    let (found, errors) = visit("src/lib.rs", vec![cfg_if_call(tokens)], &["src/u.rs", "src/w/mod.rs"]);
    assert!(errors.is_empty());
    assert_eq!(paths(&found), vec!["src/u.rs", "src/w/mod.rs"]);
}

#[test]
fn cfg_if_else_if_chain() {
    let tokens = vec![
        word("if"),
        Token::Punct('#'),
        Token::Bracket,
        Token::Block(vec![module("a")]),
        word("else"),
        word("if"),
        Token::Punct('#'),
        Token::Bracket,
        Token::Block(vec![module("b")]),
        word("else"),
        Token::Block(vec![module("c")]),
    ];
    let parsed = parse_cfg_if(&tokens).expect("a chain parses");
    assert_eq!(parsed.then_branch, 3);
    let (found, _) = visit("src/lib.rs", vec![cfg_if_call(tokens)], &["src/a.rs", "src/b.rs", "src/c.rs"]);
    assert_eq!(paths(&found), vec!["src/a.rs", "src/b.rs", "src/c.rs"]);
}

#[test]
fn cfg_if_grammar_rejects_bad_bodies() {
    let no_attr = vec![word("if"), Token::Block(vec![])];
    assert!(parse_cfg_if(&no_attr).is_none());
    let two_attrs = vec![
        word("if"),
        Token::Punct('#'),
        Token::Bracket,
        Token::Punct('#'),
        Token::Bracket,
        Token::Block(vec![]),
    ];
    assert!(parse_cfg_if(&two_attrs).is_none());
    let trailing = vec![word("if"), Token::Punct('#'), Token::Bracket, Token::Block(vec![]), word("x")];
    assert!(parse_cfg_if(&trailing).is_none());
    let after_else_block = vec![
        word("if"),
        Token::Punct('#'),
        Token::Bracket,
        Token::Block(vec![]),
        word("else"),
        Token::Block(vec![]),
        word("if"),
    ];
    assert!(parse_cfg_if(&after_else_block).is_none());
    let unparsable_block = vec![word("if"), Token::Punct('#'), Token::Bracket, Token::Brace];
    assert!(parse_cfg_if(&unparsable_block).is_none());
}

#[test]
fn two_path_overrides_give_two_descriptors() {
    let item = ModItem {
        attrs: vec![path_attr("\"x.rs\""), path_attr("\"y.rs\"")],
        ident: "m".to_string(),
        content: None,
    };
    let (found, errors) = visit("src/lib.rs", vec![Node::Mod(item)], &["src/x.rs"]);
    assert_eq!(paths(&found), vec!["src/x.rs"]);
    assert_eq!(missing_paths(&errors), vec!["src/y.rs"]);
}

#[test]
fn malformed_path_attribute_is_reported() {
    let item = ModItem { attrs: vec![path_attr("42")], ident: "m".to_string(), content: None };
    let (segments, errors) = get_possible_segments(&item);
    assert!(matches!(&segments[..], [ModSegment::Ident(n)] if n == "m"));
    assert_eq!(errors.len(), 1);
    assert!(matches!(&errors[0], Error::UnresolvedPathAttr(t) if t == "# [path = 42]"));
}

#[test]
fn other_attributes_are_not_overrides() {
    let attr = Attr { path: vec!["doc".to_string()], value: Some("\"x.rs\"".to_string()), text: String::new() };
    let item = ModItem { attrs: vec![attr], ident: "m".to_string(), content: None };
    let (segments, errors) = get_possible_segments(&item);
    assert!(errors.is_empty());
    assert!(matches!(&segments[..], [ModSegment::Ident(n)] if n == "m"));
}

#[test]
fn overrides_on_inline_module_are_directories() {
    let (segments, errors) = lower_overrides(&"h".to_string(), true, vec![Ok("../g".to_string())]);
    assert!(errors.is_empty());
    assert!(matches!(&segments[..], [ModSegment::InlinePath(p)] if p == "../g"));
    let (segments, _) = lower_overrides(&"h".to_string(), false, vec![Ok("g.rs".to_string())]);
    assert!(matches!(&segments[..], [ModSegment::ModPath(m)] if m.path == "g.rs" && m.mod_type == ModType::ModRs));
}

#[test]
fn resolve_lists_every_candidate_when_none_exists() {
    let cands = vec![
        ModPath::new("a.rs".to_string(), ModType::Adjacent),
        ModPath::new("a/mod.rs".to_string(), ModType::ModRs),
    ];
    let r = resolve_candidates(&cands, &vec![]);
    let errors = r.expect_err("nothing exists");
    assert_eq!(missing_paths(&errors), vec!["a.rs", "a/mod.rs"]);
    let r = resolve_candidates(&cands, &vec!["a/mod.rs".to_string()]);
    assert_eq!(r.expect("the index exists").path, "a/mod.rs");
}

#[test]
fn probes_list_every_candidate() {
    let mut finder = root_finder("src/lib.rs");
    finder.visit_nodes(&vec![module("a"), call("include_str", "\"t.txt\"")]);
    assert!(matches!(&finder.lookups[0], Lookup::Module(c) if c.len() == 2));
    assert_eq!(probe_paths(&finder.lookups), vec!["src/a.rs", "src/a/mod.rs", "src/t.txt"]);
}

#[test]
fn settling_ignores_order_of_existing_files() {
    let nodes = || vec![module("a"), module("b"), call("include_str", "\"t.txt\"")];
    let (f1, e1) = visit("src/lib.rs", nodes(), &["src/a.rs", "src/b/mod.rs", "src/t.txt"]);
    let (f2, e2) = visit("src/lib.rs", nodes(), &["src/t.txt", "src/b/mod.rs", "src/a.rs"]);
    assert_eq!(paths(&f1), paths(&f2));
    assert_eq!(missing_paths(&e1), missing_paths(&e2));
}

#[test]
fn discovery_queue_is_last_in_first_out() {
    let mut run = Discovery::new(ModPath::new("src/lib.rs".to_string(), ModType::ModRs));
    let root = run.next_source().expect("the seed");
    assert_eq!(root.path, "src/lib.rs");
    assert!(root.parent_file.is_none());
    assert_eq!(run.next_source().expect("still in progress").path, "src/lib.rs");
    let existing = vec!["src/a.rs".to_string(), "src/b.rs".to_string()];
    run.record_visit(&vec![module("a"), module("b")], &existing);
    let b = run.next_source().expect("b");
    assert_eq!(b.path, "src/b.rs");
    assert_eq!(b.parent_file.as_deref(), Some("src/lib.rs"));
    run.record_unparsable("expected item".to_string());
    let a = run.next_source().expect("a");
    assert_eq!(a.path, "src/a.rs");
    run.record_unreadable("unreadable".to_string());
    assert!(run.next_source().is_none());
    assert!(run.is_done());
    let result = run.into_result();
    assert_eq!(paths(&result.get_sources()), vec!["src/lib.rs", "src/b.rs", "src/a.rs"]);
    let errors = result.into_errors();
    assert_eq!(errors.len(), 2);
    assert_eq!(errors[0].0.path, "src/b.rs");
    assert!(matches!(errors[0].1, Error::Syn(_)));
    assert_eq!(errors[1].0.path, "src/a.rs");
    assert!(matches!(errors[1].1, Error::IO(_)));
}

#[test]
fn text_inclusions_are_recorded_without_opening() {
    let mut run = Discovery::for_crate("src/lib.rs".to_string());
    run.next_source();
    run.record_visit(&vec![call("include_str", "\"t.txt\"")], &vec!["src/t.txt".to_string()]);
    let text = run.next_source().expect("the text file");
    assert!(!opens_file(&text));
    assert!(probes_for(&text, &vec![module("x")]).is_empty());
    run.record_visit(&vec![], &vec![]);
    assert!(run.is_done());
    assert!(!run.into_result().has_errors());
}

#[test]
fn sources_and_errors_flatten_in_order() {
    let d = |p: &str| SourceFileDesc::new(p.to_string(), SourceFileType::Bytes, None);
    let result = SourcesAndErrors::new(vec![
        (d("x"), vec![Error::Syn("bad".to_string()), Error::IO("gone".to_string())]),
        (d("y"), vec![]),
        (d("z"), vec![Error::UnresolvedPathAttr("p".to_string())]),
    ]);
    assert_eq!(paths(&result.get_sources()), vec!["x", "y", "z"]);
    assert!(result.has_errors());
    let errors = result.into_errors();
    let owners: Vec<&str> = errors.iter().map(|(d, _)| d.path.as_str()).collect();
    assert_eq!(owners, vec!["x", "x", "z"]);
}

#[test]
fn files_never_opened_get_no_walk() {
    let text = SourceFileDesc::new("a.txt".to_string(), SourceFileType::String, None);
    assert!(finder_for(&text).is_none());
    let unanchored = SourceFileDesc::new(
        "s.rs".to_string(),
        SourceFileType::RustSnippet(ModStack::from_segments(vec![ModSegment::Ident("m".to_string())])),
        None,
    );
    assert!(finder_for(&unanchored).is_none());
}

#[test]
fn clean_run_has_no_errors() {
    let d = SourceFileDesc::new("x".to_string(), SourceFileType::Bytes, None);
    let result = SourcesAndErrors::new(vec![(d, vec![])]);
    assert!(!result.has_errors());
    assert_eq!(paths(&result.into_sources()), vec!["x"]);
}

#[test]
fn crate_root_is_an_index_file() {
    let mut run = Discovery::for_crate("src/main.rs".to_string());
    let seed = run.next_source().expect("the seed");
    assert_eq!(seed.path, "src/main.rs");
    assert!(matches!(seed.file_type, SourceFileType::RustSource(ModType::ModRs)));
    let mut finder = finder_for(&seed).expect("a module file is visited");
    finder.visit_nodes(&vec![module("a")]);
    assert_eq!(probe_paths(&finder.lookups), vec!["src/a.rs", "src/a/mod.rs"]);
}

#[test]
fn undecodable_path_attribute_keeps_the_module() {
    let item = ModItem { attrs: vec![path_attr("42")], ident: "m".to_string(), content: None };
    let (found, errors) = visit("src/lib.rs", vec![Node::Mod(item)], &["src/m.rs"]);
    assert_eq!(paths(&found), vec!["src/m.rs"]);
    assert_eq!(errors.len(), 1);
    assert!(matches!(&errors[0], Error::UnresolvedPathAttr(_)));
}

#[test]
fn decoded_override_beside_undecodable_one() {
    let item = ModItem {
        attrs: vec![path_attr("42"), path_attr("\"x.rs\"")],
        ident: "m".to_string(),
        content: None,
    };
    let (segments, errors) = get_possible_segments(&item);
    assert!(matches!(&segments[..], [ModSegment::ModPath(p)] if p.path == "x.rs"));
    assert_eq!(errors.len(), 1);
}

#[test]
fn c_string_path_attribute_is_reported_not_fatal() {
    let item = ModItem { attrs: vec![path_attr("c\"a.rs\"")], ident: "m".to_string(), content: None };
    let (segments, errors) = get_possible_segments(&item);
    assert!(matches!(&segments[..], [ModSegment::Ident(n)] if n == "m"));
    assert!(matches!(&errors[0], Error::UnresolvedPathAttr(_)));
}

#[test]
fn c_string_include_argument_is_reported_not_fatal() {
    let (found, errors) = visit("src/lib.rs", vec![call("include_str", "c\"a.txt\"")], &["src/a.txt"]);
    assert!(found.is_empty());
    assert!(matches!(&errors[..], [Error::UnresolvedIncludeArg(_)]));
}

#[test]
fn raw_string_include_argument_is_decoded() {
    let (found, errors) = visit("src/lib.rs", vec![call("include_str", "r\"a.txt\"")], &["src/a.txt"]);
    assert!(errors.is_empty());
    assert_eq!(paths(&found), vec!["src/a.txt"]);
}

#[test]
fn unparsable_cfg_if_is_reported_and_traversal_goes_on() {
    let no_attr = vec![word("if"), Token::Block(vec![module("u")])];
    let (found, errors) =
        visit("src/lib.rs", vec![cfg_if_call(no_attr), module("after")], &["src/u.rs", "src/after.rs"]);
    assert_eq!(paths(&found), vec!["src/after.rs"]);
    assert_eq!(errors.len(), 1);
    assert!(matches!(&errors[0], Error::Syn(t) if t.starts_with("cfg_if")));
}

#[test]
fn outcome_of_a_run() {
    let d = |p: &str| SourceFileDesc::new(p.to_string(), SourceFileType::Bytes, None);
    let clean = SourcesAndErrors::new(vec![(d("x"), vec![])]);
    assert_eq!(paths(&clean.into_outcome().expect("no errors")), vec!["x"]);
    let failed = SourcesAndErrors::new(vec![(d("x"), vec![]), (d("y"), vec![Error::IO("gone".to_string())])]);
    let e = failed.into_outcome().expect_err("an error");
    assert_eq!(e.sources.len(), 2);
}
