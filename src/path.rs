//! Filesystem paths as `/`-separated strings, with the few operations the
//! resolver needs: joining, taking the parent directory and the file stem.
use vstd::prelude::*;

verus! {

/// Index of the last occurrence of `c` in `s`, or -1 when there is none.
pub open spec fn last_index_of(s: Seq<char>, c: char) -> int
    decreases s.len(),
{
    if s.len() == 0 {
        -1
    } else if s.last() == c {
        s.len() - 1
    } else {
        last_index_of(s.drop_last(), c)
    }
}

/// Appending `rel` to `base`: an absolute `rel` replaces `base`, an empty
/// `base` yields `rel`, and otherwise one separator stands between them.
pub open spec fn join(base: Seq<char>, rel: Seq<char>) -> Seq<char> {
    if rel.len() > 0 && rel[0] == '/' {
        rel
    } else if base.len() == 0 {
        rel
    } else if base.last() == '/' {
        base + rel
    } else {
        base + seq!['/'] + rel
    }
}

/// Everything before the last separator (the root stays the root); a bare file
/// name has the empty path as its parent.
pub open spec fn parent(p: Seq<char>) -> Seq<char> {
    let k = last_index_of(p, '/');
    if k < 0 {
        Seq::empty()
    } else if k == 0 {
        seq!['/']
    } else {
        p.subrange(0, k)
    }
}

/// The last component of a path.
pub open spec fn file_name(p: Seq<char>) -> Seq<char> {
    p.subrange(last_index_of(p, '/') + 1, p.len() as int)
}

/// The file name without its extension; a name whose only dot leads it has no
/// extension.
pub open spec fn file_stem(p: Seq<char>) -> Seq<char> {
    let name = file_name(p);
    let d = last_index_of(name, '.');
    if d <= 0 {
        name
    } else {
        name.subrange(0, d)
    }
}

proof fn lemma_last_index_bounds(s: Seq<char>, c: char)
    ensures
        -1 <= last_index_of(s, c) < s.len(),
        last_index_of(s, c) >= 0 ==> s[last_index_of(s, c)] == c,
        forall|j: int| last_index_of(s, c) < j < s.len() ==> s[j] != c,
    decreases s.len(),
{
    if s.len() > 0 && s.last() != c {
        lemma_last_index_bounds(s.drop_last(), c);
        assert forall|j: int| last_index_of(s, c) < j < s.len() implies s[j] != c by {
            if j < s.len() - 1 {
                assert(s.drop_last()[j] == s[j]);
            }
        }
    }
}

/// Position of the last `c` in `s`, found by scanning from the end.
fn find_last(s: &str, c: char) -> (r: Option<usize>)
    ensures
        match r {
            Some(k) => k as int == last_index_of(s@, c),
            None => last_index_of(s@, c) == -1,
        },
{
    let n = s.unicode_len();
    let mut i: usize = n;
    assert(s@.subrange(0, n as int) =~= s@);
    while i > 0
        invariant
            i <= n,
            n == s@.len(),
            last_index_of(s@, c) == last_index_of(s@.subrange(0, i as int), c),
        decreases i,
    {
        let ch = s.get_char(i - 1);
        proof {
            let pre = s@.subrange(0, i as int);
            assert(pre.drop_last() =~= s@.subrange(0, i - 1));
        }
        if ch == c {
            return Some(i - 1);
        }
        i = i - 1;
    }
    assert(s@.subrange(0, 0) =~= Seq::<char>::empty());
    None
}

/// Appends `rel` to `base` as [`join`] describes.
pub fn join_path(base: &str, rel: &str) -> (r: String)
    ensures
        r@ == join(base@, rel@),
{
    let nb = base.unicode_len();
    let nr = rel.unicode_len();
    if nr > 0 && rel.get_char(0) == '/' {
        rel.to_owned()
    } else if nb == 0 {
        rel.to_owned()
    } else if base.get_char(nb - 1) == '/' {
        base.to_owned().concat(rel)
    } else {
        let r = base.to_owned().concat("/").concat(rel);
        proof {
            reveal_strlit("/");
            assert("/"@ =~= seq!['/']);
        }
        r
    }
}

/// The parent directory of `p`, as [`parent`] describes.
pub fn parent_path(p: &str) -> (r: String)
    ensures
        r@ == parent(p@),
{
    proof {
        lemma_last_index_bounds(p@, '/');
    }
    match find_last(p, '/') {
        None => String::new(),
        Some(k) => {
            if k == 0 {
                let r = "/".to_owned();
                proof {
                    reveal_strlit("/");
                    assert(r@ =~= seq!['/']);
                }
                r
            } else {
                p.substring_char(0, k).to_owned()
            }
        },
    }
}

/// The file stem of `p`, as [`file_stem`] describes.
pub fn stem_of(p: &str) -> (r: String)
    ensures
        r@ == file_stem(p@),
{
    proof {
        lemma_last_index_bounds(p@, '/');
    }
    let n = p.unicode_len();
    let start: usize = match find_last(p, '/') {
        None => 0,
        Some(k) => k + 1,
    };
    let name = p.substring_char(start, n);
    proof {
        lemma_last_index_bounds(name@, '.');
    }
    match find_last(name, '.') {
        None => name.to_owned(),
        Some(d) => {
            if d == 0 {
                name.to_owned()
            } else {
                name.substring_char(0, d).to_owned()
            }
        },
    }
}

} // verus!
