//! Character-level helpers shared by the parsers of this crate.
use vstd::prelude::*;
use vstd::string::*;
use vstd::std_specs::iter::IteratorSpec;

verus! {

broadcast use vstd::string::group_string_axioms;

/// The Unicode `White_Space` property: the characters that `char::is_whitespace`,
/// `str::trim` and the `\s` class of regular expressions treat as blank.
pub open spec fn is_white_space(c: char) -> bool {
    ||| ('\u{9}' <= c && c <= '\u{d}')
    ||| c == ' '
    ||| c == '\u{85}'
    ||| c == '\u{a0}'
    ||| c == '\u{1680}'
    ||| ('\u{2000}' <= c && c <= '\u{200a}')
    ||| c == '\u{2028}'
    ||| c == '\u{2029}'
    ||| c == '\u{202f}'
    ||| c == '\u{205f}'
    ||| c == '\u{3000}'
}

/// Tests one character for the `White_Space` property.
pub fn white_space(c: char) -> (r: bool)
    ensures
        r == is_white_space(c),
{
    ('\u{9}' <= c && c <= '\u{d}') || c == ' ' || c == '\u{85}' || c == '\u{a0}' || c
        == '\u{1680}' || ('\u{2000}' <= c && c <= '\u{200a}') || c == '\u{2028}' || c
        == '\u{2029}' || c == '\u{202f}' || c == '\u{205f}' || c == '\u{3000}'
}

/// The characters of a string slice, in order.
pub fn chars_of(s: &str) -> (v: Vec<char>)
    ensures
        v@ == s@,
{
    let mut v: Vec<char> = Vec::new();
    let mut it = s.chars();
    loop
        invariant
            v@ + it.remaining() == s@,
        ensures
            v@ == s@,
        decreases s@.len() - v@.len(),
    {
        match it.next() {
            Some(c) => {
                v.push(c);
            },
            None => {
                assert(v@ =~= s@);
                break ;
            },
        }
    }
    v
}

/// `w` occurs in `s` at position `i`.
pub open spec fn occurs_at(s: Seq<char>, i: int, w: Seq<char>) -> bool {
    0 <= i && i + w.len() <= s.len() && s.subrange(i, i + w.len()) == w
}

/// First position at or after `j` that is not white space (or the end).
pub open spec fn skip_white(s: Seq<char>, j: int) -> int
    decreases s.len() - j,
{
    if j >= s.len() {
        s.len() as int
    } else if is_white_space(s[j]) {
        skip_white(s, j + 1)
    } else {
        j
    }
}

/// First position at or after `j` that holds `c` (or the end).
pub open spec fn find_char(s: Seq<char>, c: char, j: int) -> int
    decreases s.len() - j,
{
    if j >= s.len() {
        s.len() as int
    } else if s[j] == c {
        j
    } else {
        find_char(s, c, j + 1)
    }
}

pub proof fn lemma_skip_white(s: Seq<char>, j: int)
    requires
        0 <= j <= s.len(),
    ensures
        j <= skip_white(s, j) <= s.len(),
        skip_white(s, j) < s.len() ==> !is_white_space(s[skip_white(s, j)]),
    decreases s.len() - j,
{
    if j < s.len() && is_white_space(s[j]) {
        lemma_skip_white(s, j + 1);
    }
}

/// `skip_white` stops at the end of a run of white space.
pub proof fn lemma_skip_white_run(s: Seq<char>, j: int, m: int)
    requires
        0 <= j <= m < s.len(),
        forall|i: int| j <= i < m ==> is_white_space(#[trigger] s[i]),
        !is_white_space(s[m]),
    ensures
        skip_white(s, j) == m,
    decreases m - j,
{
    if j < m {
        lemma_skip_white_run(s, j + 1, m);
    }
}

/// `find_char` stops at the first `c` at or after `j`.
pub proof fn lemma_find_char_at(s: Seq<char>, c: char, j: int, m: int)
    requires
        0 <= j <= m < s.len(),
        forall|i: int| j <= i < m ==> #[trigger] s[i] != c,
        s[m] == c,
    ensures
        find_char(s, c, j) == m,
    decreases m - j,
{
    if j < m {
        lemma_find_char_at(s, c, j + 1, m);
    }
}

pub proof fn lemma_find_char(s: Seq<char>, c: char, j: int)
    requires
        0 <= j <= s.len(),
    ensures
        j <= find_char(s, c, j) <= s.len(),
    decreases s.len() - j,
{
    if j < s.len() && s[j] != c {
        lemma_find_char(s, c, j + 1);
    }
}

pub fn skip_white_exec(v: &Vec<char>, j: usize) -> (r: usize)
    requires
        j <= v.len(),
    ensures
        r == skip_white(v@, j as int),
{
    let mut k = j;
    while k < v.len() && white_space(v[k])
        invariant
            j <= k <= v.len(),
            skip_white(v@, j as int) == skip_white(v@, k as int),
        decreases v.len() - k,
    {
        k = k + 1;
    }
    k
}

pub fn find_char_exec(v: &Vec<char>, c: char, j: usize) -> (r: usize)
    requires
        j <= v.len(),
    ensures
        r == find_char(v@, c, j as int),
{
    let mut k = j;
    while k < v.len() && v[k] != c
        invariant
            j <= k <= v.len(),
            find_char(v@, c, j as int) == find_char(v@, c, k as int),
        decreases v.len() - k,
    {
        k = k + 1;
    }
    k
}

pub fn occurs_at_exec(v: &Vec<char>, i: usize, w: &[char]) -> (r: bool)
    ensures
        r == occurs_at(v@, i as int, w@),
{
    if i > v.len() || w.len() > v.len() - i {
        return false;
    }
    let mut k: usize = 0;
    while k < w.len()
        invariant
            i + w.len() <= v.len(),
            k <= w.len(),
            forall|t: int| 0 <= t < k ==> v@[i + t] == w@[t],
        decreases w.len() - k,
    {
        if v[i + k] != w[k] {
            assert(v@.subrange(i as int, i + w.len())[k as int] != w@[k as int]);
            return false;
        }
        k = k + 1;
    }
    assert(v@.subrange(i as int, i + w.len()) =~= w@);
    true
}

/// `w` occurs somewhere in `s`.
pub open spec fn contains_seq(s: Seq<char>, w: Seq<char>) -> bool {
    exists|i: int| occurs_at(s, i, w)
}

/// Whether `w` occurs in `v`.
pub fn contains_exec(v: &Vec<char>, w: &Vec<char>) -> (r: bool)
    ensures
        r == contains_seq(v@, w@),
{
    let n = v.len();
    let mut i: usize = 0;
    loop
        invariant
            n == v.len(),
            i <= n,
            forall|j: int| 0 <= j < i ==> !occurs_at(v@, j, w@),
        ensures
            forall|j: int| 0 <= j <= n ==> !occurs_at(v@, j, w@),
        decreases n - i,
    {
        if occurs_at_exec(v, i, w.as_slice()) {
            return true;
        }
        if i == n {
            break ;
        }
        i = i + 1;
    }
    proof {
        assert forall|j: int| !occurs_at(v@, j, w@) by {
            if 0 <= j < i {
            }
        }
    }
    false
}

/// A line without its trailing carriage return, if it has one.
pub open spec fn strip_cr(t: Seq<char>) -> Seq<char> {
    if t.len() > 0 && t[t.len() - 1] == '\r' {
        t.drop_last()
    } else {
        t
    }
}

/// The lines of `s` from position `i` on, as `str::lines` gives them: split
/// at each `\n`, a `\r` right before the `\n` dropped, and no empty line
/// after a final `\n`.
pub open spec fn lines_from(s: Seq<char>, i: int) -> Seq<Seq<char>>
    decreases s.len() - i,
{
    if i < 0 || i >= s.len() {
        seq![]
    } else {
        let k = find_char(s, '\n', i);
        proof {
            lemma_find_char(s, '\n', i);
        }
        if k >= s.len() {
            seq![s.subrange(i, s.len() as int)]
        } else {
            seq![strip_cr(s.subrange(i, k))] + lines_from(s, k + 1)
        }
    }
}

/// The lines of `s`.
pub open spec fn lines(s: Seq<char>) -> Seq<Seq<char>> {
    lines_from(s, 0)
}

/// The lines of a string, as `str::lines` gives them.
pub fn lines_of(s: &str) -> (r: Vec<String>)
    ensures
        r.deep_view() == lines(s@),
{
    let v = chars_of(s);
    let mut out: Vec<String> = Vec::new();
    let mut i: usize = 0;
    while i < v.len()
        invariant
            v@ == s@,
            i <= v.len(),
            out.deep_view() + lines_from(v@, i as int) == lines(v@),
        decreases v.len() - i,
    {
        let k = find_char_exec(&v, '\n', i);
        proof {
            lemma_find_char(v@, '\n', i as int);
        }
        let ghost before = out.deep_view();
        if k >= v.len() {
            out.push(String::from_str(s.substring_char(i, v.len())));
            proof {
                assert(out.deep_view() =~= before + lines_from(v@, i as int));
                assert(lines_from(v@, v.len() as int) =~= Seq::<Seq<char>>::empty());
                assert(out.deep_view() + lines_from(v@, v.len() as int) =~= out.deep_view());
            }
            i = v.len();
        } else {
            let end = if k > i && v[k - 1] == '\r' {
                k - 1
            } else {
                k
            };
            out.push(String::from_str(s.substring_char(i, end)));
            proof {
                assert(v@.subrange(i as int, end as int) =~= strip_cr(v@.subrange(i as int, k as int)));
                assert(out.deep_view() + lines_from(v@, k + 1) =~= before + lines_from(v@, i as int));
            }
            i = k + 1;
        }
    }
    proof {
        assert(lines_from(v@, i as int) =~= Seq::<Seq<char>>::empty());
        assert(out.deep_view() =~= lines(v@));
    }
    out
}

/// The value of a string of ASCII decimal digits, if it is one.
pub open spec fn digits_value(s: Seq<char>) -> Option<nat>
    decreases s.len(),
{
    if s.len() == 0 {
        Some(0)
    } else if '0' <= s[s.len() - 1] && s[s.len() - 1] <= '9' {
        match digits_value(s.drop_last()) {
            Some(v) => Some(v * 10 + ((s[s.len() - 1] as nat) - ('0' as nat)) as nat),
            None => None,
        }
    } else {
        None
    }
}

/// What `str::parse` gives for an unsigned integer type whose largest value
/// is `max`: an optional `+`, then at least one ASCII digit, and a value
/// that fits.
pub open spec fn parse_unsigned(s: Seq<char>, max: nat) -> Option<nat> {
    if s.len() == 0 {
        None
    } else {
        let body = if s[0] == '+' {
            s.drop_first()
        } else {
            s
        };
        if body.len() == 0 {
            None
        } else {
            match digits_value(body) {
                Some(v) => if v <= max {
                    Some(v)
                } else {
                    None
                },
                None => None,
            }
        }
    }
}

proof fn lemma_digits_prefix(s: Seq<char>, k: int)
    requires
        0 <= k <= s.len(),
        digits_value(s) is Some,
    ensures
        digits_value(s.take(k)) is Some,
        digits_value(s.take(k))->0 <= digits_value(s)->0,
    decreases s.len(),
{
    if k < s.len() {
        assert(s.take(k) =~= s.drop_last().take(k));
        lemma_digits_prefix(s.drop_last(), k);
    } else {
        assert(s.take(k) =~= s);
    }
}

/// Parses `v[lo..hi]` as `str::parse::<u64>` would.
pub fn parse_u64_range(v: &Vec<char>, lo: usize, hi: usize) -> (r: Option<u64>)
    requires
        lo <= hi <= v.len(),
    ensures
        r matches Some(x) ==> parse_unsigned(v@.subrange(lo as int, hi as int), u64::MAX as nat)
            == Some(x as nat),
        r is None ==> parse_unsigned(v@.subrange(lo as int, hi as int), u64::MAX as nat) is None,
{
    let ghost s = v@.subrange(lo as int, hi as int);
    if lo == hi {
        return None;
    }
    let start = if v[lo] == '+' {
        lo + 1
    } else {
        lo
    };
    let ghost body = v@.subrange(start as int, hi as int);
    assert(body =~= if s[0] == '+' { s.drop_first() } else { s });
    if start == hi {
        return None;
    }
    let mut acc: u64 = 0;
    let mut k: usize = start;
    while k < hi
        invariant
            start <= k <= hi <= v.len(),
            body == v@.subrange(start as int, hi as int),
            s == v@.subrange(lo as int, hi as int),
            lo < hi,
            start < hi,
            body == if s[0] == '+' { s.drop_first() } else { s },
            digits_value(body.take(k - start)) == Some(acc as nat),
        decreases hi - k,
    {
        let c = v[k];
        assert(body.take(k - start + 1).drop_last() =~= body.take(k - start));
        assert(body.take(k - start + 1)[k - start] == c);
        if c < '0' || c > '9' {
            proof {
                if digits_value(body) is Some {
                    lemma_digits_prefix(body, k - start + 1);
                }
            }
            return None;
        }
        let d = (c as u32 - '0' as u32) as u64;
        if acc > (u64::MAX - d) / 10 {
            proof {
                assert(acc * 10 + d > u64::MAX) by (nonlinear_arith)
                    requires
                        acc > (u64::MAX - d) / 10,
                        d <= 9,
                ;
                if digits_value(body) is Some {
                    lemma_digits_prefix(body, k - start + 1);
                }
            }
            return None;
        }
        acc = acc * 10 + d;
        k = k + 1;
    }
    assert(body.take(hi - start) =~= body);
    Some(acc)
}

} // verus!
