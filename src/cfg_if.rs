//! The grammar of a `cfg_if!` body:
//! `if #[attr] { ... } (else ({ ... } | <cfg_if>))?`, spanning the whole body.
use crate::syntax::Token;
use vstd::prelude::*;

verus! {

/// What follows `else`.
#[derive(Debug)]
pub enum CfgExpr {
    /// A final block, by its token position.
    Block(usize),
    /// A further conditional arm.
    If(CfgIf),
}

/// One conditional arm, by token positions.
#[derive(Debug)]
pub struct CfgIf {
    /// Position of the `if` keyword.
    pub if_token: usize,
    /// Position of the `#` that opens the one attribute.
    pub cfg_attr: usize,
    /// Position of the block taken when the attribute holds.
    pub then_branch: usize,
    pub else_branch: Option<Box<CfgExpr>>,
}

pub open spec fn word_at(t: Seq<Token>, i: int, w: Seq<char>) -> bool {
    0 <= i < t.len() && t[i] is Ident && t[i]->Ident_0@ == w
}

pub open spec fn block_at(t: Seq<Token>, i: int) -> bool {
    0 <= i < t.len() && t[i] is Block
}

/// An `if`, one attribute and a block start at `i`.
pub open spec fn arm_at(t: Seq<Token>, i: int) -> bool {
    &&& word_at(t, i, seq!['i', 'f'])
    &&& i + 2 < t.len() && t[i + 1] == Token::Punct('#') && t[i + 2] is Bracket
    &&& block_at(t, i + 3)
}

/// Whether the tokens from `i` to the end form a conditional.
pub open spec fn cfg_if_from(t: Seq<Token>, i: int) -> bool
    decreases t.len() - i,
{
    if !(0 <= i && arm_at(t, i)) {
        false
    } else if i + 4 == t.len() {
        true
    } else if !word_at(t, i + 4, seq!['e', 'l', 's', 'e']) {
        false
    } else if block_at(t, i + 5) {
        i + 6 == t.len()
    } else {
        cfg_if_from(t, i + 5)
    }
}

/// `c` is the parse of the tokens from `i` to the end.
pub open spec fn parses_from(t: Seq<Token>, i: int, c: CfgIf) -> bool
    decreases t.len() - i,
{
    &&& 0 <= i && arm_at(t, i)
    &&& c.if_token == i && c.cfg_attr == i + 1 && c.then_branch == i + 3
    &&& match c.else_branch {
        None => i + 4 == t.len(),
        Some(e) => {
            &&& word_at(t, i + 4, seq!['e', 'l', 's', 'e'])
            &&& match *e {
                CfgExpr::Block(k) => k == i + 5 && block_at(t, k as int) && k + 1 == t.len(),
                CfgExpr::If(d) => !block_at(t, i + 5) && i + 5 < t.len() && parses_from(t, i + 5, d),
            }
        },
    }
}

fn is_word(t: &Vec<Token>, i: usize, w: &str) -> (r: bool)
    ensures
        r == word_at(t@, i as int, w@),
{
    if i < t.len() {
        match &t[i] {
            Token::Ident(s) => {
                let word = w.to_owned();
                *s == word
            },
            _ => false,
        }
    } else {
        false
    }
}

fn is_block(t: &Vec<Token>, i: usize) -> (r: bool)
    ensures
        r == block_at(t@, i as int),
{
    i < t.len() && match &t[i] {
        Token::Block(_) => true,
        _ => false,
    }
}

/// Parses the conditional that starts at token `i` and runs to the end.
pub fn parse_cfg_if_from(t: &Vec<Token>, i: usize) -> (r: Option<CfgIf>)
    ensures
        r is Some == cfg_if_from(t@, i as int),
        r matches Some(c) ==> parses_from(t@, i as int, c),
    decreases t@.len() - i,
{
    proof {
        reveal_strlit("if");
        reveal_strlit("else");
        assert("if"@ =~= seq!['i', 'f']);
        assert("else"@ =~= seq!['e', 'l', 's', 'e']);
    }
    if !is_word(t, i, "if") || t.len() - i < 4 {
        return None;
    }
    let hash = match &t[i + 1] {
        Token::Punct(ch) => *ch == '#',
        _ => false,
    };
    let bracket = match &t[i + 2] {
        Token::Bracket => true,
        _ => false,
    };
    if !hash || !bracket || !is_block(t, i + 3) {
        return None;
    }
    let then_branch = i + 3;
    if t.len() - i == 4 {
        return Some(CfgIf { if_token: i, cfg_attr: i + 1, then_branch, else_branch: None });
    }
    if !is_word(t, i + 4, "else") {
        return None;
    }
    if is_block(t, i + 5) {
        if t.len() - i == 6 {
            let e = Box::new(CfgExpr::Block(i + 5));
            return Some(CfgIf { if_token: i, cfg_attr: i + 1, then_branch, else_branch: Some(e) });
        }
        return None;
    }
    match parse_cfg_if_from(t, i + 5) {
        None => None,
        Some(d) => {
            let e = Box::new(CfgExpr::If(d));
            Some(CfgIf { if_token: i, cfg_attr: i + 1, then_branch, else_branch: Some(e) })
        },
    }
}

/// Parses a whole `cfg_if!` body.
pub fn parse_cfg_if(t: &Vec<Token>) -> (r: Option<CfgIf>)
    ensures
        r is Some == cfg_if_from(t@, 0),
        r matches Some(c) ==> parses_from(t@, 0, c),
{
    parse_cfg_if_from(t, 0)
}

} // verus!
