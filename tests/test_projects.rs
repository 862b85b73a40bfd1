use srcfiles::syntax::{Attr, MacroCall, ModItem, Node, Token};
use srcfiles::{opens_file, probes_for, Discovery, Error, ModPath, ModType, SourceFileDesc};

/// Resolves `.` and `..` components, so that two spellings of one file compare equal.
fn normalize(path: &str) -> String {
    let mut parts: Vec<&str> = Vec::new();
    for part in path.split('/') {
        match part {
            "" | "." => {}
            ".." => {
                if matches!(parts.last(), Some(p) if *p != "..") {
                    parts.pop();
                } else {
                    parts.push("..");
                }
            }
            other => parts.push(other),
        }
    }
    parts.join("/")
}

fn module(name: &str) -> Node {
    Node::Mod(ModItem { attrs: vec![], ident: name.to_string(), content: None })
}

fn inline_module(name: &str, items: Vec<Node>) -> Node {
    Node::Mod(ModItem { attrs: vec![], ident: name.to_string(), content: Some(items) })
}

fn path_attr(literal: &str) -> Attr {
    Attr {
        path: vec!["path".to_string()],
        value: Some(literal.to_string()),
        text: format!("# [path = {}]", literal),
    }
}

fn module_at(name: &str, paths: &[&str], content: Option<Vec<Node>>) -> Node {
    let attrs = paths.iter().map(|p| path_attr(&format!("{:?}", p))).collect();
    Node::Mod(ModItem { attrs, ident: name.to_string(), content })
}

fn call(name: &str, body: &str) -> Node {
    Node::Macro(MacroCall {
        path: vec![name.to_string()],
        tokens: vec![Token::Literal(body.to_string())],
        body: body.to_string(),
        text: format!("{} ! ({})", name, body),
    })
}

fn cfg_if(tokens: Vec<Token>) -> Node {
    Node::Macro(MacroCall {
        path: vec!["cfg_if".to_string()],
        tokens,
        body: String::new(),
        text: "cfg_if ! { }".to_string(),
    })
}

fn if_word() -> Token {
    Token::Ident("if".to_string())
}

fn else_word() -> Token {
    Token::Ident("else".to_string())
}

/// An in-memory tree: the files that exist, and the syntax of those that are
/// parsed.
struct Tree {
    files: Vec<String>,
    syntax: fn(&str) -> Vec<Node>,
}

impl Tree {
    fn has_file(&self, path: &str) -> bool {
        let p = normalize(path);
        self.files.iter().any(|f| normalize(f) == p)
    }
}

fn discover(tree: &Tree, root: &str, mod_type: ModType) -> (Vec<SourceFileDesc>, Vec<Error>) {
    let mut run = Discovery::new(ModPath::new(root.to_string(), mod_type));
    while let Some(source) = run.next_source() {
        if !opens_file(&source) {
            run.record_visit(&vec![], &vec![]);
        } else if tree.has_file(&source.path) {
            let nodes = (tree.syntax)(&normalize(&source.path));
            let existing: Vec<String> =
                probes_for(&source, &nodes).into_iter().filter(|p| tree.has_file(p)).collect();
            run.record_visit(&nodes, &existing);
        } else {
            run.record_unreadable(format!("cannot open {}", source.path));
        }
    }
    let result = run.into_result();
    let sources = result.get_sources();
    let errors = result.into_errors().into_iter().map(|(_, e)| e).collect();
    (sources, errors)
}

fn assert_has_source(srcfiles: &[SourceFileDesc], path: &str) {
    assert!(
        srcfiles.iter().any(|desc| normalize(&desc.path) == normalize(path)),
        "No source with path {}",
        path
    );
}

fn assert_missing_files(errors: &[Error], path: &str) {
    assert!(
        errors.iter().any(|e| matches!(e, Error::MissingFile(desc) if desc.path == path)),
        "No missing file with path {}",
        path
    );
}

fn simple_syntax(path: &str) -> Vec<Node> {
    match path {
        "test_projects/simple/src/main.rs" => vec![module("a"), module("b"), module("c")],
        "test_projects/simple/src/a.rs" => vec![module("c"), module("d")],
        "test_projects/simple/src/a/c.rs" => vec![module("d")],
        "test_projects/simple/src/b/mod.rs" => vec![module("f"), module("g")],
        _ => vec![],
    }
}

fn simple_tree() -> Tree {
    let files = [
        "main.rs", "a.rs", "a/c.rs", "a/d/mod.rs", "b/mod.rs", "b/f/mod.rs", "b/g.rs",
    ];
    Tree {
        files: files.iter().map(|f| format!("test_projects/simple/src/{}", f)).collect(),
        syntax: simple_syntax,
    }
}

#[test]
fn simple_test() {
    let (srcfiles, errors) = discover(&simple_tree(), "test_projects/simple/src/main.rs", ModType::ModRs);

    assert_eq!(srcfiles.len(), 7);
    assert_has_source(&srcfiles, "test_projects/simple/src/main.rs");
    assert_has_source(&srcfiles, "test_projects/simple/src/a.rs");
    assert_has_source(&srcfiles, "test_projects/simple/src/a/c.rs");
    assert_has_source(&srcfiles, "test_projects/simple/src/a/d/mod.rs");
    assert_has_source(&srcfiles, "test_projects/simple/src/b/mod.rs");
    assert_has_source(&srcfiles, "test_projects/simple/src/b/f/mod.rs");
    assert_has_source(&srcfiles, "test_projects/simple/src/b/g.rs");

    assert_eq!(errors.len(), 4);
    assert_missing_files(&errors, "test_projects/simple/src/c.rs");
    assert_missing_files(&errors, "test_projects/simple/src/c/mod.rs");
    assert_missing_files(&errors, "test_projects/simple/src/a/c/d.rs");
    assert_missing_files(&errors, "test_projects/simple/src/a/c/d/mod.rs");
}

fn paths_syntax(path: &str) -> Vec<Node> {
    match path {
        "test_projects/paths/src/main.rs" => vec![
            module_at("a", &["../src/a.rs"], None),
            module_at("x", &["b.rs"], None),
            module_at("g", &["../g/mod.rs"], None),
            module_at("h", &["../g"], Some(vec![module("actual_mod")])),
        ],
        "test_projects/paths/src/a.rs" => vec![inline_module("b", vec![module("c")])],
        "test_projects/paths/src/b.rs" => vec![module("c"), module("d")],
        "test_projects/paths/g/mod.rs" => vec![module_at("f", &["../src/f.rs"], None)],
        _ => vec![],
    }
}

fn paths_tree() -> Tree {
    let files = [
        "src/main.rs", "src/a.rs", "src/b.rs", "src/d.rs", "src/c/mod.rs", "g/mod.rs", "g/actual_mod.rs",
    ];
    Tree {
        files: files.iter().map(|f| format!("test_projects/paths/{}", f)).collect(),
        syntax: paths_syntax,
    }
}

#[test]
fn path_attr_test() {
    let (srcfiles, errors) = discover(&paths_tree(), "test_projects/paths/src/main.rs", ModType::ModRs);

    assert_eq!(srcfiles.len(), 7);
    assert_has_source(&srcfiles, "test_projects/paths/src/main.rs");
    assert_has_source(&srcfiles, "test_projects/paths/src/a.rs");
    assert_has_source(&srcfiles, "test_projects/paths/src/b.rs");
    assert_has_source(&srcfiles, "test_projects/paths/src/d.rs");
    assert_has_source(&srcfiles, "test_projects/paths/src/c/mod.rs");
    assert_has_source(&srcfiles, "test_projects/paths/g/mod.rs");
    assert_has_source(&srcfiles, "test_projects/paths/g/actual_mod.rs");
    assert_eq!(errors.len(), 3);
    assert_missing_files(&errors, "test_projects/paths/src/../src/b/c.rs");
    assert_missing_files(&errors, "test_projects/paths/src/../src/b/c/mod.rs");
    assert_missing_files(&errors, "test_projects/paths/src/../g/../src/f.rs");
}

fn inline_syntax(path: &str) -> Vec<Node> {
    match path {
        "test_projects/inline/src/lib.rs" => vec![
            inline_module(
                "a",
                vec![inline_module(
                    "c",
                    vec![module("d"), inline_module("e", vec![inline_module("e", vec![module("e")])])],
                )],
            ),
            module_at("g", &["../g/mod.rs"], None),
        ],
        "test_projects/inline/g/mod.rs" => vec![module("h")],
        _ => vec![],
    }
}

fn inline_tree() -> Tree {
    let files = ["src/lib.rs", "g/mod.rs", "g/h.rs", "src/a/c/d/mod.rs", "src/a/c/e/e/e.rs"];
    Tree {
        files: files.iter().map(|f| format!("test_projects/inline/{}", f)).collect(),
        syntax: inline_syntax,
    }
}

#[test]
fn inline_mods_test() {
    let (srcfiles, errors) = discover(&inline_tree(), "test_projects/inline/src/lib.rs", ModType::ModRs);
    assert_eq!(srcfiles.len(), 5);
    assert_has_source(&srcfiles, "test_projects/inline/src/lib.rs");
    assert_has_source(&srcfiles, "test_projects/inline/g/mod.rs");
    assert_has_source(&srcfiles, "test_projects/inline/g/h.rs");
    assert_has_source(&srcfiles, "test_projects/inline/src/a/c/d/mod.rs");
    assert_has_source(&srcfiles, "test_projects/inline/src/a/c/e/e/e.rs");
    assert_eq!(errors.len(), 0);
}

#[test]
fn include_test() {
    let (srcfiles, errors) = discover(&inline_tree(), "test_projects/inline/src/lib.rs", ModType::ModRs);
    assert_eq!(srcfiles.len(), 5);
    assert_has_source(&srcfiles, "test_projects/inline/src/lib.rs");
    assert_has_source(&srcfiles, "test_projects/inline/g/mod.rs");
    assert_has_source(&srcfiles, "test_projects/inline/g/h.rs");
    assert_has_source(&srcfiles, "test_projects/inline/src/a/c/d/mod.rs");
    assert_has_source(&srcfiles, "test_projects/inline/src/a/c/e/e/e.rs");
    assert_eq!(errors.len(), 0);
}

#[test]
fn discovery_is_repeatable() {
    let tree = simple_tree();
    let (s1, e1) = discover(&tree, "test_projects/simple/src/main.rs", ModType::ModRs);
    let (s2, e2) = discover(&tree, "test_projects/simple/src/main.rs", ModType::ModRs);
    let mut first: Vec<String> = s1.iter().map(|d| d.path.clone()).collect();
    let mut second: Vec<String> = s2.iter().map(|d| d.path.clone()).collect();
    first.sort();
    second.sort();
    assert_eq!(first, second);
    let missing = |errors: &[Error]| {
        let mut v: Vec<String> = errors
            .iter()
            .filter_map(|e| match e {
                Error::MissingFile(d) => Some(d.path.clone()),
                _ => None,
            })
            .collect();
        v.sort();
        v
    };
    assert_eq!(missing(&e1), missing(&e2));
    assert_eq!(e1.len(), 4);
}

#[test]
fn seed_has_no_parent_and_others_name_theirs() {
    let (srcfiles, _) = discover(&simple_tree(), "test_projects/simple/src/main.rs", ModType::ModRs);
    let opened: Vec<String> = srcfiles.iter().map(|d| d.path.clone()).collect();
    for d in &srcfiles {
        if d.path == "test_projects/simple/src/main.rs" {
            assert!(d.parent_file.is_none());
        } else {
            let parent = d.parent_file.clone().expect("a parent");
            assert!(opened.contains(&parent));
        }
    }
}
