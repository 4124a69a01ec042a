//! The reading of `include`/`use` lines that the dependency tools perform.
use vstd::prelude::*;
use vstd::string::*;
use crate::text::{
    chars_of, is_white_space, lemma_skip_white, lemma_skip_white_run, lines, lines_of, occurs_at, occurs_at_exec, skip_white,
    skip_white_exec,
};

verus! {

broadcast use vstd::string::group_string_axioms;

/// The two statements whose targets the dependency tools read.
#[derive(Debug, Clone, Copy, PartialEq, Eq, Structural)]
pub enum DependencyKeyword {
    Include,
    Use,
}

/// The word that starts a statement of the kind.
pub open spec fn keyword_text(k: DependencyKeyword) -> Seq<char> {
    match k {
        DependencyKeyword::Include => seq!['i', 'n', 'c', 'l', 'u', 'd', 'e'],
        DependencyKeyword::Use => seq!['u', 's', 'e'],
    }
}

/// First position at or after `j` where `w` occurs in `s` (the length of
/// `s` where it does not).
pub open spec fn find_word(s: Seq<char>, w: Seq<char>, j: int) -> int
    decreases s.len() - j,
{
    if j < 0 || j >= s.len() {
        s.len() as int
    } else if occurs_at(s, j, w) {
        j
    } else {
        find_word(s, w, j + 1)
    }
}

/// First position at or after `j` that holds `>` or `"` (or the end).
pub open spec fn find_closer(s: Seq<char>, j: int) -> int
    decreases s.len() - j,
{
    if j < 0 || j >= s.len() {
        s.len() as int
    } else if s[j] == '>' || s[j] == '"' {
        j
    } else {
        find_closer(s, j + 1)
    }
}

/// Where the text after the first occurrence of `w` in `line` starts, once
/// white space is skipped; `None` where `w` does not occur.
pub open spec fn after_word(line: Seq<char>, w: Seq<char>) -> Option<int> {
    let i = find_word(line, w, 0);
    if i >= line.len() {
        None
    } else {
        Some(skip_white(line, i + w.len()))
    }
}

/// The target that a dependency tool reads from one line: after the first
/// occurrence of the word and white space, an opening `<` or `"`, then
/// everything up to the next `>` or `"`.
pub open spec fn line_dependency(line: Seq<char>, w: Seq<char>) -> Option<Seq<char>> {
    match after_word(line, w) {
        Some(r) => if r < line.len() && (line[r] == '<' || line[r] == '"') && find_closer(
            line,
            r + 1,
        ) < line.len() {
            Some(line.subrange(r + 1, find_closer(line, r + 1)))
        } else {
            None
        },
        None => None,
    }
}

/// The targets read from a sequence of lines, in order.
pub open spec fn dependencies_of_lines(ls: Seq<Seq<char>>, w: Seq<char>) -> Seq<Seq<char>>
    decreases ls.len(),
{
    if ls.len() == 0 {
        seq![]
    } else {
        dependencies_of_lines(ls.drop_last(), w) + match line_dependency(ls.last(), w) {
            Some(d) => seq![d],
            None => seq![],
        }
    }
}

/// The targets read from the lines of `content`.
pub open spec fn dependencies_of(content: Seq<char>, w: Seq<char>) -> Seq<Seq<char>> {
    dependencies_of_lines(lines(content), w)
}

proof fn lemma_find_word(s: Seq<char>, w: Seq<char>, j: int)
    requires
        0 <= j,
    ensures
        j <= find_word(s, w, j) <= s.len() || j > s.len(),
        find_word(s, w, j) < s.len() ==> occurs_at(s, find_word(s, w, j), w),
    decreases s.len() - j,
{
    if j < s.len() && !occurs_at(s, j, w) {
        lemma_find_word(s, w, j + 1);
    }
}

proof fn lemma_find_word_at(s: Seq<char>, w: Seq<char>, j: int, m: int)
    requires
        0 <= j <= m < s.len(),
        occurs_at(s, m, w),
        forall|i: int| j <= i < m ==> !occurs_at(s, i, w),
    ensures
        find_word(s, w, j) == m,
    decreases m - j,
{
    if j < m {
        lemma_find_word_at(s, w, j + 1, m);
    }
}

proof fn lemma_find_closer_at(s: Seq<char>, j: int, m: int)
    requires
        0 <= j <= m < s.len(),
        forall|i: int| j <= i < m ==> #[trigger] s[i] != '>' && s[i] != '"',
        s[m] == '>' || s[m] == '"',
    ensures
        find_closer(s, j) == m,
    decreases m - j,
{
    if j < m {
        lemma_find_closer_at(s, j + 1, m);
    }
}

/// Law: in a line where the word `k` first occurs after `pre` and is
/// followed by any run of white space (none at all included), an opening
/// `<` or `"`, a target `t` without `>` or `"`, and a closing `>` or `"`,
/// the target read for `k` is exactly `t`, whatever follows.
pub proof fn law_dependency_target_read(
    pre: Seq<char>,
    k: Seq<char>,
    ws: Seq<char>,
    open: char,
    t: Seq<char>,
    close: char,
    rest: Seq<char>,
)
    requires
        k.len() > 0,
        forall|i: int| 0 <= i < ws.len() ==> is_white_space(#[trigger] ws[i]),
        open == '<' || open == '"',
        close == '>' || close == '"',
        forall|i: int| 0 <= i < t.len() ==> #[trigger] t[i] != '>' && t[i] != '"',
        forall|i: int|
            0 <= i < pre.len() ==> !occurs_at(
                #[trigger] (pre + k + ws + seq![open] + t + seq![close] + rest),
                i,
                k,
            ),
    ensures
        line_dependency(pre + k + ws + seq![open] + t + seq![close] + rest, k) == Some(t),
{
    let line = pre + k + ws + seq![open] + t + seq![close] + rest;
    let a = pre.len() as int;
    let b = a + k.len();
    let r = b + ws.len();
    assert(line.subrange(a, b) =~= k);
    assert(occurs_at(line, a, k));
    lemma_find_word_at(line, k, 0, a);
    assert forall|i: int| b <= i < r implies is_white_space(#[trigger] line[i]) by {
        assert(line[i] == ws[i - b]);
    }
    assert(line[r] == open);
    lemma_skip_white_run(line, b, r);
    assert forall|i: int| r + 1 <= i < r + 1 + t.len() implies #[trigger] line[i] != '>' && line[i]
        != '"' by {
        assert(line[i] == t[i - r - 1]);
    }
    assert(line[r + 1 + t.len()] == close);
    lemma_find_closer_at(line, r + 1, r + 1 + t.len());
    assert(line.subrange(r + 1, r + 1 + t.len()) =~= t);
}

fn find_word_exec(v: &Vec<char>, w: &[char]) -> (r: usize)
    requires
        w@.len() > 0,
    ensures
        r == find_word(v@, w@, 0),
{
    let n = v.len();
    let mut j: usize = 0;
    while j < n && !occurs_at_exec(v, j, w)
        invariant
            n == v.len(),
            j <= n,
            find_word(v@, w@, 0) == find_word(v@, w@, j as int),
        decreases n - j,
    {
        j = j + 1;
    }
    j
}

fn find_closer_exec(v: &Vec<char>, j: usize) -> (r: usize)
    requires
        j <= v.len(),
    ensures
        r == find_closer(v@, j as int),
        j <= r <= v.len(),
{
    let mut k = j;
    while k < v.len() && v[k] != '>' && v[k] != '"'
        invariant
            j <= k <= v.len(),
            find_closer(v@, j as int) == find_closer(v@, k as int),
        decreases v.len() - k,
    {
        k = k + 1;
    }
    k
}

/// What one line gives a dependency tool.
enum LineScan {
    Nothing,
    Target(usize, usize),
}

fn scan_line(v: &Vec<char>, w: &[char]) -> (r: LineScan)
    requires
        w@.len() > 0,
    ensures
        r matches LineScan::Target(a, b) ==> a <= b <= v@.len() && line_dependency(v@, w@) == Some(
            v@.subrange(a as int, b as int),
        ),
        r is Nothing ==> line_dependency(v@, w@) is None,
{
    let i = find_word_exec(v, w);
    proof {
        lemma_find_word(v@, w@, 0);
    }
    if i >= v.len() {
        return LineScan::Nothing;
    }
    let r = skip_white_exec(v, i + w.len());
    proof {
        lemma_skip_white(v@, i + w@.len());
    }
    if r < v.len() && (v[r] == '<' || v[r] == '"') {
        let e = find_closer_exec(v, r + 1);
        if e < v.len() {
            LineScan::Target(r + 1, e)
        } else {
            LineScan::Nothing
        }
    } else {
        LineScan::Nothing
    }
}

fn keyword_chars(keyword: DependencyKeyword) -> (w: Vec<char>)
    ensures
        w@ == keyword_text(keyword),
        w@.len() > 0,
{
    match keyword {
        DependencyKeyword::Include => {
            let w = vec!['i', 'n', 'c', 'l', 'u', 'd', 'e'];
            assert(w@ =~= keyword_text(keyword));
            w
        },
        DependencyKeyword::Use => {
            let w = vec!['u', 's', 'e'];
            assert(w@ =~= keyword_text(keyword));
            w
        },
    }
}

/// The targets of the `keyword` statements of `content`, one per line at
/// most, in order, as the dependency tools read them.
pub fn line_dependencies(content: &str, keyword: DependencyKeyword) -> (r: Vec<String>)
    ensures
        r.deep_view() == dependencies_of(content@, keyword_text(keyword)),
{
    let w = keyword_chars(keyword);
    let ls = lines_of(content);
    let ghost all = lines(content@);
    let mut out: Vec<String> = Vec::new();
    let mut k: usize = 0;
    while k < ls.len()
        invariant
            ls.deep_view() == all,
            all == lines(content@),
            w@ == keyword_text(keyword),
            w@.len() > 0,
            k <= ls.len(),
            out.deep_view() == dependencies_of_lines(all.take(k as int), w@),
        decreases ls.len() - k,
    {
        let line = ls[k].as_str();
        let v = chars_of(line);
        assert(v@ == all[k as int]);
        assert(all.take(k + 1).drop_last() =~= all.take(k as int));
        assert(all.take(k + 1).last() == all[k as int]);
        let ghost before = out.deep_view();
        match scan_line(&v, w.as_slice()) {
            LineScan::Target(a, b) => {
                out.push(String::from_str(line.substring_char(a, b)));
                assert(out.deep_view() =~= before + seq![v@.subrange(a as int, b as int)]);
            },
            LineScan::Nothing => {
                assert(out.deep_view() =~= before + Seq::<Seq<char>>::empty());
            },
        }
        k = k + 1;
    }
    assert(all.take(ls.len() as int) =~= all);
    out
}

} // verus!
