//! Extraction of the files that an OpenSCAD source pulls in with
//! `include <...>`, `include "..."`, `use <...>` or `use "..."`.
//!
//! A statement is the word `include` or `use`, any run of white space, and
//! a path of at least one character between `<` and `>` or between two
//! double quotes.  Statements are found from left to right without overlap;
//! the words need not stand on their own (`#include <a>` counts).
use vstd::prelude::*;
use vstd::string::*;
use crate::error::{Error, Result};
use crate::text::{
    chars_of, find_char, find_char_exec, is_white_space, lemma_find_char, lemma_find_char_at,
    lemma_skip_white, lemma_skip_white_run, occurs_at, occurs_at_exec, skip_white, skip_white_exec,
};

verus! {

broadcast use vstd::string::group_string_axioms;

pub open spec fn word_include() -> Seq<char> {
    seq!['i', 'n', 'c', 'l', 'u', 'd', 'e']
}

pub open spec fn word_use() -> Seq<char> {
    seq!['u', 's', 'e']
}

/// The statement that starts at position `i`, if any: where it ends and
/// where its path starts and ends.
pub open spec fn statement_at(s: Seq<char>, i: int) -> Option<(int, int, int)> {
    let kw = if occurs_at(s, i, word_include()) {
        7int
    } else if occurs_at(s, i, word_use()) {
        3int
    } else {
        0int
    };
    if kw == 0 {
        None
    } else {
        let j = skip_white(s, i + kw);
        if j < s.len() && (s[j] == '<' || s[j] == '"') {
            let close = if s[j] == '<' {
                '>'
            } else {
                '"'
            };
            let k = find_char(s, close, j + 1);
            if k < s.len() && k > j + 1 {
                Some((k + 1, j + 1, k))
            } else {
                None
            }
        } else {
            None
        }
    }
}

/// The paths of all statements found scanning from position `i`.
pub open spec fn includes_from(s: Seq<char>, i: int) -> Seq<Seq<char>>
    decreases s.len() - i,
{
    if i < 0 || i >= s.len() {
        seq![]
    } else {
        match statement_at(s, i) {
            Some((e, a, b)) => if e > i {
                seq![s.subrange(a, b)] + includes_from(s, e)
            } else {
                seq![]
            },
            None => includes_from(s, i + 1),
        }
    }
}

/// Law: a statement made of `include` or `use`, any run of white space
/// (none at all included), and a non-empty path between `<` and `>` (or
/// between two `"`) that holds no closing character, is found with that
/// path; the scan then goes on after the statement.
pub proof fn law_statement_found(kw: Seq<char>, ws: Seq<char>, quoted: bool, path: Seq<char>, rest: Seq<char>)
    requires
        kw == word_include() || kw == word_use(),
        forall|i: int| 0 <= i < ws.len() ==> is_white_space(#[trigger] ws[i]),
        path.len() > 0,
        forall|i: int| 0 <= i < path.len() ==> #[trigger] path[i] != (if quoted { '"' } else { '>' }),
    ensures
        ({
            let open = if quoted { '"' } else { '<' };
            let close = if quoted { '"' } else { '>' };
            let stmt = kw + ws + seq![open] + path + seq![close];
            &&& includes_from(stmt + rest, 0) == seq![path] + includes_from(stmt + rest, stmt.len() as int)
            &&& includes_from(stmt, 0) == seq![path]
        }),
{
    let open = if quoted { '"' } else { '<' };
    let close = if quoted { '"' } else { '>' };
    let stmt = kw + ws + seq![open] + path + seq![close];
    lemma_statement_at_start(kw, ws, open, close, path, rest);
    lemma_statement_at_start(kw, ws, open, close, path, seq![]);
    assert(stmt + seq![] =~= stmt);
}

proof fn lemma_statement_at_start(
    kw: Seq<char>,
    ws: Seq<char>,
    open: char,
    close: char,
    path: Seq<char>,
    rest: Seq<char>,
)
    requires
        kw == word_include() || kw == word_use(),
        forall|i: int| 0 <= i < ws.len() ==> is_white_space(#[trigger] ws[i]),
        (open == '<' && close == '>') || (open == '"' && close == '"'),
        path.len() > 0,
        forall|i: int| 0 <= i < path.len() ==> #[trigger] path[i] != close,
    ensures
        includes_from(kw + ws + seq![open] + path + seq![close] + rest, 0) == seq![path]
            + includes_from(
            kw + ws + seq![open] + path + seq![close] + rest,
            (kw + ws + seq![open] + path + seq![close]).len() as int,
        ),
{
    let s = kw + ws + seq![open] + path + seq![close] + rest;
    let b = kw.len() as int;
    let j = b + ws.len();
    let k = j + 1 + path.len();
    assert(s.subrange(0, b) =~= kw);
    if kw == word_use() {
        assert(!occurs_at(s, 0, word_include())) by {
            if occurs_at(s, 0, word_include()) {
                assert(s.subrange(0, 7)[0] == s[0]);
            }
        }
    }
    assert forall|i: int| b <= i < j implies is_white_space(#[trigger] s[i]) by {
        assert(s[i] == ws[i - b]);
    }
    assert(s[j] == open);
    lemma_skip_white_run(s, b, j);
    assert forall|i: int| j + 1 <= i < k implies #[trigger] s[i] != close by {
        assert(s[i] == path[i - j - 1]);
    }
    assert(s[k] == close);
    lemma_find_char_at(s, close, j + 1, k);
    assert(statement_at(s, 0) == Some((k + 1, j + 1, k)));
    assert(s.subrange(j + 1, k) =~= path);
}

fn statement_at_exec(v: &Vec<char>, i: usize) -> (r: Option<(usize, usize, usize)>)
    requires
        i < v.len(),
    ensures
        r matches Some(t) ==> statement_at(v@, i as int) == Some((t.0 as int, t.1 as int, t.2 as int))
            && i < t.0 <= v.len() && t.1 < t.2 <= v.len(),
        r is None ==> statement_at(v@, i as int) is None,
{
    let include_word: [char; 7] = ['i', 'n', 'c', 'l', 'u', 'd', 'e'];
    let use_word: [char; 3] = ['u', 's', 'e'];
    assert(include_word@ =~= word_include());
    assert(use_word@ =~= word_use());
    let kw: usize = if occurs_at_exec(v, i, include_word.as_slice()) {
        7
    } else if occurs_at_exec(v, i, use_word.as_slice()) {
        3
    } else {
        0
    };
    if kw == 0 {
        return None;
    }
    let j = skip_white_exec(v, i + kw);
    proof {
        lemma_skip_white(v@, (i + kw) as int);
    }
    if j < v.len() && (v[j] == '<' || v[j] == '"') {
        let close = if v[j] == '<' {
            '>'
        } else {
            '"'
        };
        let k = find_char_exec(v, close, j + 1);
        proof {
            lemma_find_char(v@, close, j + 1);
        }
        if k < v.len() && k > j + 1 {
            Some((k + 1, j + 1, k))
        } else {
            None
        }
    } else {
        None
    }
}

/// Parse include/use statements from OpenSCAD content.
///
/// Returns the referenced paths in the order in which they occur; never fails.
pub fn parse_includes(content: &str) -> (r: Result<Vec<String>>)
    ensures
        r matches Ok(paths) && paths.deep_view() == includes_from(content@, 0),
{
    let v = chars_of(content);
    let mut out: Vec<String> = Vec::new();
    let mut i: usize = 0;
    while i < v.len()
        invariant
            v@ == content@,
            i <= v.len(),
            out.deep_view() + includes_from(v@, i as int) == includes_from(v@, 0),
        decreases v.len() - i,
    {
        match statement_at_exec(&v, i) {
            Some((e, a, b)) => {
                let path = String::from_str(content.substring_char(a, b));
                let ghost before = out.deep_view();
                out.push(path);
                proof {
                    assert(out.deep_view() =~= before.push(v@.subrange(a as int, b as int)));
                    assert(includes_from(v@, i as int) == seq![v@.subrange(a as int, b as int)]
                        + includes_from(v@, e as int));
                    assert(out.deep_view() + includes_from(v@, e as int) =~= before + includes_from(
                        v@,
                        i as int,
                    ));
                }
                i = e;
            },
            None => {
                i = i + 1;
            },
        }
    }
    proof {
        assert(includes_from(v@, i as int) == Seq::<Seq<char>>::empty());
        assert(out.deep_view() =~= includes_from(v@, 0));
    }
    Ok(out)
}

} // verus!
