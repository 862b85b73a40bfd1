//! The parts of a file's syntax tree that discovery reads, as plain values.
use vstd::prelude::*;

verus! {

/// An outer attribute.
#[derive(Debug, Clone)]
pub struct Attr {
    /// The segments of the attribute's path (`path` in `#[path = "a.rs"]`).
    pub path: Vec<String>,
    /// For a name-value attribute, the text of the tokens after `=`.
    pub value: Option<String>,
    /// The whole attribute as written.
    pub text: String,
}

/// A module declaration.
#[derive(Debug)]
pub struct ModItem {
    pub attrs: Vec<Attr>,
    pub ident: String,
    /// The items of an inline body, if the module has one.
    pub content: Option<Vec<Node>>,
}

/// One top-level token tree of a macro's body.
#[derive(Debug)]
pub enum Token {
    Ident(String),
    Punct(char),
    Literal(String),
    /// A parenthesised group.
    Paren,
    /// A bracketed group.
    Bracket,
    /// A braced group whose contents parse as a block; the items found in it.
    Block(Vec<Node>),
    /// A braced group whose contents do not parse as a block.
    Brace,
}

/// A macro invocation.
#[derive(Debug)]
pub struct MacroCall {
    /// The segments of the callee's path.
    pub path: Vec<String>,
    /// The body's top-level token trees.
    pub tokens: Vec<Token>,
    /// The text of the body.
    pub body: String,
    /// The whole invocation as written.
    pub text: String,
}

/// A syntax node that discovery acts on, in traversal order.
#[derive(Debug)]
pub enum Node {
    Mod(ModItem),
    Macro(MacroCall),
}

/// What `text` denotes when it is exactly one string literal.
pub uninterp spec fn str_literal_value(text: Seq<char>) -> Option<Seq<char>>;

/// Whether `text` opens the way every string literal does, with `"` or with
/// the `r` of a raw string.
pub open spec fn opens_like_str_literal(text: Seq<char>) -> bool {
    text.len() > 0 && (text[0] == '"' || text[0] == 'r')
}

/// The string that `text` denotes, when it is one string literal.
pub open spec fn literal_value(text: Seq<char>) -> Option<Seq<char>> {
    if opens_like_str_literal(text) {
        str_literal_value(text)
    } else {
        None
    }
}

/// Relies on `syn::parse_str::<syn::LitStr>` and `syn::LitStr::value`: the
/// parse succeeds exactly when the text is one string literal (plain or raw,
/// with an optional suffix), and `value` gives its contents with escapes
/// resolved; both depend on the text alone. A text opening with `"` or `r`
/// reaches only syn's string branch, so the call does not panic.
#[verifier::external_body]
fn parse_str_literal(text: &str) -> (r: Option<String>)
    requires
        opens_like_str_literal(text@),
    ensures
        match r {
            Some(v) => str_literal_value(text@) == Some(v@),
            None => str_literal_value(text@) is None,
        },
{
    syn::parse_str::<syn::LitStr>(text).ok().map(|lit| lit.value())
}

/// The string that `text` denotes, or nothing when `text` is not one string
/// literal.
pub fn decode_str_literal(text: &str) -> (r: Option<String>)
    ensures
        match r {
            Some(v) => literal_value(text@) == Some(v@),
            None => literal_value(text@) is None,
        },
{
    let n = text.unicode_len();
    if n == 0 {
        return None;
    }
    let c = text.get_char(0);
    if c == '"' || c == 'r' {
        parse_str_literal(text)
    } else {
        None
    }
}

/// Whether `s` holds the word `w`.
pub open spec fn is_word(s: Seq<String>, w: Seq<char>) -> bool {
    s.len() == 1 && s[0]@ == w
}

/// The last segment of a macro's path, the name it is dispatched on.
pub open spec fn macro_name(c: MacroCall) -> Seq<char> {
    if c.path@.len() == 0 {
        Seq::empty()
    } else {
        c.path@.last()@
    }
}

impl MacroCall {
    /// The last segment of the callee's path.
    pub fn name(&self) -> (r: String)
        ensures
            r@ == macro_name(*self),
    {
        if self.path.len() == 0 {
            String::new()
        } else {
            self.path[self.path.len() - 1].clone()
        }
    }
}

} // verus!
