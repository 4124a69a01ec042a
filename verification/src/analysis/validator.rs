//! Classification of OpenSCAD's diagnostic output into errors and warnings,
//! with the line and column numbers that the messages mention.
//!
//! A position is read the way the pattern
//! `(?:line|Line)\s*(\d+)(?:[:,\s]+(?:column|Column)\s*(\d+))?` reads it:
//! the leftmost `line`/`Line` followed by optional white space and at least
//! one decimal digit, then optionally separators (`:`, `,`, white space),
//! `column`/`Column`, optional white space and digits.
use vstd::prelude::*;
use vstd::string::*;
use crate::mcp::diagnostics::{reports_error, reports_warning};
use crate::render::params::to_lowercase;
use crate::text::{
    chars_of, contains_exec, contains_seq, is_white_space, lines, lines_of, lemma_skip_white, occurs_at, occurs_at_exec, parse_u64_range,
    parse_unsigned, skip_white, skip_white_exec, white_space,
};

verus! {

broadcast use vstd::string::group_string_axioms;

/// Validation result for a SCAD file.
#[derive(Debug, Clone)]
pub struct ValidationResult {
    /// Whether the code is valid
    pub valid: bool,
    /// List of errors found
    pub errors: Vec<ValidationError>,
    /// List of warnings found
    pub warnings: Vec<ValidationWarning>,
}

/// Validation error.
#[derive(Debug, Clone)]
pub struct ValidationError {
    /// Error message
    pub message: String,
    /// Line number (if available)
    pub line: Option<u32>,
    /// Column number (if available)
    pub column: Option<u32>,
}

/// Validation warning.
#[derive(Debug, Clone)]
pub struct ValidationWarning {
    /// Warning message
    pub message: String,
    /// Line number (if available)
    pub line: Option<u32>,
}

impl ValidationResult {
    /// Check if validation passed.
    pub fn is_valid(&self) -> (r: bool)
        ensures
            r == (self.valid && self.errors@.len() == 0),
    {
        self.valid && self.errors.len() == 0
    }

    /// Get error count.
    pub fn error_count(&self) -> (r: usize)
        ensures
            r == self.errors@.len(),
    {
        self.errors.len()
    }

    /// Get warning count.
    pub fn warning_count(&self) -> (r: usize)
        ensures
            r == self.warnings@.len(),
    {
        self.warnings.len()
    }
}

impl Default for ValidationResult {
    fn default() -> (r: ValidationResult)
        ensures
            r.valid,
            r.errors@.len() == 0,
            r.warnings@.len() == 0,
    {
        ValidationResult { valid: true, errors: Vec::new(), warnings: Vec::new() }
    }
}

/// Whether `c` is in the class `\d` of the `regex` crate (Unicode decimal
/// digits, general category Nd).
pub uninterp spec fn regex_decimal_digit(c: char) -> bool;

/// Trusted: calls `regex::Regex::is_match` with the pattern `\A\d\z` on the
/// one-character string `c`.  Claimed: the answer is a function of `c`, and
/// on ASCII characters it holds exactly for `0`–`9` (the regex
/// documentation defines `\d` as `\p{Nd}`, whose ASCII members are the ten
/// digits).
#[verifier::external_body]
fn is_regex_digit(c: char) -> (r: bool)
    ensures
        r == regex_decimal_digit(c),
        (c as u32) < 128 ==> (r <==> ('0' <= c && c <= '9')),
{
    let mut buf = [0u8;4];
    match regex::Regex::new(r"\A\d\z") {
        Ok(re) => re.is_match(c.encode_utf8(&mut buf)),
        Err(_) => false,
    }
}

/// Whether `c` is a decimal digit as `\d` reads it: on ASCII characters
/// exactly `0`–`9`, elsewhere as the regex class decides.
pub open spec fn decimal_digit(c: char) -> bool {
    if (c as u32) < 128 {
        '0' <= c && c <= '9'
    } else {
        regex_decimal_digit(c)
    }
}

/// First position at or after `j` that does not hold a digit (or the end).
pub open spec fn digit_run_end(s: Seq<char>, j: int) -> int
    decreases s.len() - j,
{
    if j < 0 || j >= s.len() {
        j
    } else if decimal_digit(s[j]) {
        digit_run_end(s, j + 1)
    } else {
        j
    }
}

proof fn lemma_digit_run_end(s: Seq<char>, j: int)
    requires
        0 <= j <= s.len(),
    ensures
        j <= digit_run_end(s, j) <= s.len(),
    decreases s.len() - j,
{
    if j < s.len() && decimal_digit(s[j]) {
        lemma_digit_run_end(s, j + 1);
    }
}

fn digit_run_end_exec(v: &Vec<char>, j: usize) -> (r: usize)
    requires
        j <= v.len(),
    ensures
        r == digit_run_end(v@, j as int),
        j <= r <= v.len(),
{
    let mut k = j;
    while k < v.len() && is_regex_digit(v[k])
        invariant
            j <= k <= v.len(),
            digit_run_end(v@, j as int) == digit_run_end(v@, k as int),
        decreases v.len() - k,
    {
        k = k + 1;
    }
    k
}

pub open spec fn word_line_lower() -> Seq<char> {
    seq!['l', 'i', 'n', 'e']
}

pub open spec fn word_line_upper() -> Seq<char> {
    seq!['L', 'i', 'n', 'e']
}

pub open spec fn word_column_lower() -> Seq<char> {
    seq!['c', 'o', 'l', 'u', 'm', 'n']
}

pub open spec fn word_column_upper() -> Seq<char> {
    seq!['C', 'o', 'l', 'u', 'm', 'n']
}

/// The digits of a line number mentioned at position `i`, if one is.
pub open spec fn line_number_at(s: Seq<char>, i: int) -> Option<(int, int)> {
    if occurs_at(s, i, word_line_lower()) || occurs_at(s, i, word_line_upper()) {
        let j = skip_white(s, i + 4);
        let k = digit_run_end(s, j);
        if k > j {
            Some((j, k))
        } else {
            None
        }
    } else {
        None
    }
}

/// The digits of the leftmost line number mentioned at or after position `i`.
pub open spec fn first_line_number(s: Seq<char>, i: int) -> Option<(int, int)>
    decreases s.len() - i,
{
    if i < 0 || i >= s.len() {
        None
    } else {
        match line_number_at(s, i) {
            Some(r) => Some(r),
            None => first_line_number(s, i + 1),
        }
    }
}

/// Separators allowed between a line number and `column`.
pub open spec fn is_separator(c: char) -> bool {
    c == ':' || c == ',' || is_white_space(c)
}

pub open spec fn skip_separators(s: Seq<char>, k: int) -> int
    decreases s.len() - k,
{
    if k < 0 || k >= s.len() {
        k
    } else if is_separator(s[k]) {
        skip_separators(s, k + 1)
    } else {
        k
    }
}

/// The digits of a column number that follows a line number ending at `k`.
pub open spec fn column_number_after(s: Seq<char>, k: int) -> Option<(int, int)> {
    let m = skip_separators(s, k);
    if m > k && (occurs_at(s, m, word_column_lower()) || occurs_at(s, m, word_column_upper())) {
        let j = skip_white(s, m + 6);
        let e = digit_run_end(s, j);
        if e > j {
            Some((j, e))
        } else {
            None
        }
    } else {
        None
    }
}

/// What `str::parse::<u32>` gives for `s`.
pub open spec fn parse_u32_spec(s: Seq<char>) -> Option<u32> {
    match parse_unsigned(s, u32::MAX as nat) {
        Some(v) => Some(v as u32),
        None => None,
    }
}

/// The line number mentioned in a diagnostic line, if it parses.
pub open spec fn line_of(s: Seq<char>) -> Option<u32> {
    match first_line_number(s, 0) {
        Some((a, b)) => parse_u32_spec(s.subrange(a, b)),
        None => None,
    }
}

/// The column number mentioned in a diagnostic line, if it parses.
pub open spec fn column_of(s: Seq<char>) -> Option<u32> {
    match first_line_number(s, 0) {
        Some((a, b)) => match column_number_after(s, b) {
            Some((c, d)) => parse_u32_spec(s.subrange(c, d)),
            None => None,
        },
        None => None,
    }
}

fn line_number_at_exec(v: &Vec<char>, i: usize) -> (r: Option<(usize, usize)>)
    requires
        i < v.len(),
    ensures
        r matches Some(p) ==> line_number_at(v@, i as int) == Some((p.0 as int, p.1 as int)) && p.0
            < p.1 <= v.len(),
        r is None ==> line_number_at(v@, i as int) is None,
{
    let lower: [char; 4] = ['l', 'i', 'n', 'e'];
    let upper: [char; 4] = ['L', 'i', 'n', 'e'];
    assert(lower@ =~= word_line_lower());
    assert(upper@ =~= word_line_upper());
    if occurs_at_exec(v, i, lower.as_slice()) || occurs_at_exec(v, i, upper.as_slice()) {
        let j = skip_white_exec(v, i + 4);
        proof {
            lemma_skip_white(v@, i + 4);
        }
        let k = digit_run_end_exec(v, j);
        if k > j {
            Some((j, k))
        } else {
            None
        }
    } else {
        None
    }
}

fn first_line_number_exec(v: &Vec<char>) -> (r: Option<(usize, usize)>)
    ensures
        r matches Some(p) ==> first_line_number(v@, 0) == Some((p.0 as int, p.1 as int)) && p.0
            < p.1 <= v.len(),
        r is None ==> first_line_number(v@, 0) is None,
{
    let mut i: usize = 0;
    while i < v.len()
        invariant
            i <= v.len(),
            first_line_number(v@, 0) == first_line_number(v@, i as int),
        decreases v.len() - i,
    {
        match line_number_at_exec(v, i) {
            Some(p) => {
                return Some(p);
            },
            None => {},
        }
        i = i + 1;
    }
    None
}

fn skip_separators_exec(v: &Vec<char>, k: usize) -> (r: usize)
    requires
        k <= v.len(),
    ensures
        r == skip_separators(v@, k as int),
        k <= r <= v.len(),
{
    let mut m = k;
    while m < v.len() && (v[m] == ':' || v[m] == ',' || white_space(v[m]))
        invariant
            k <= m <= v.len(),
            skip_separators(v@, k as int) == skip_separators(v@, m as int),
        decreases v.len() - m,
    {
        m = m + 1;
    }
    m
}

fn column_number_after_exec(v: &Vec<char>, k: usize) -> (r: Option<(usize, usize)>)
    requires
        k <= v.len(),
    ensures
        r matches Some(p) ==> column_number_after(v@, k as int) == Some((p.0 as int, p.1 as int))
            && p.0 < p.1 <= v.len(),
        r is None ==> column_number_after(v@, k as int) is None,
{
    let lower: [char; 6] = ['c', 'o', 'l', 'u', 'm', 'n'];
    let upper: [char; 6] = ['C', 'o', 'l', 'u', 'm', 'n'];
    assert(lower@ =~= word_column_lower());
    assert(upper@ =~= word_column_upper());
    let m = skip_separators_exec(v, k);
    if m > k && (occurs_at_exec(v, m, lower.as_slice()) || occurs_at_exec(v, m, upper.as_slice())) {
        let j = skip_white_exec(v, m + 6);
        proof {
            lemma_skip_white(v@, m + 6);
        }
        let e = digit_run_end_exec(v, j);
        if e > j {
            Some((j, e))
        } else {
            None
        }
    } else {
        None
    }
}

fn parse_u32_range(v: &Vec<char>, lo: usize, hi: usize) -> (r: Option<u32>)
    requires
        lo <= hi <= v.len(),
    ensures
        r == parse_u32_spec(v@.subrange(lo as int, hi as int)),
{
    match parse_u64_range(v, lo, hi) {
        Some(x) => {
            if x <= u32::MAX as u64 {
                Some(x as u32)
            } else {
                None
            }
        },
        None => None,
    }
}

/// Parse an error line of OpenSCAD's output: the whole line is the
/// message, with the line and column numbers it mentions.
pub fn parse_error_line(line: &str) -> (r: Option<ValidationError>)
    ensures
        r matches Some(e) && e.message@ == line@ && e.line == line_of(line@) && e.column == column_of(
            line@,
        ),
{
    let v = chars_of(line);
    let mut line_num: Option<u32> = None;
    let mut col_num: Option<u32> = None;
    match first_line_number_exec(&v) {
        Some((a, b)) => {
            line_num = parse_u32_range(&v, a, b);
            match column_number_after_exec(&v, b) {
                Some((c, d)) => {
                    col_num = parse_u32_range(&v, c, d);
                },
                None => {},
            }
        },
        None => {},
    }
    Some(ValidationError { message: String::from_str(line), line: line_num, column: col_num })
}

/// Parse a warning line of OpenSCAD's output: the whole line is the
/// message, with the line number it mentions.
pub fn parse_warning_line(line: &str) -> (r: Option<ValidationWarning>)
    ensures
        r matches Some(w) && w.message@ == line@ && w.line == line_of(line@),
{
    let v = chars_of(line);
    let line_num = match first_line_number_exec(&v) {
        Some((a, b)) => parse_u32_range(&v, a, b),
        None => None,
    };
    Some(ValidationWarning { message: String::from_str(line), line: line_num })
}

/// A diagnostic line that reports an error: it contains `error` in any
/// letter case.
pub open spec fn is_error_line(l: Seq<char>) -> bool {
    reports_error(l)
}

/// A diagnostic line that mentions a warning: it contains `warning` in any
/// letter case.
pub open spec fn is_warning_line(l: Seq<char>) -> bool {
    reports_warning(l)
}

/// An error as plain values: message, line and column.
pub open spec fn error_view(e: ValidationError) -> (Seq<char>, Option<u32>, Option<u32>) {
    (e.message@, e.line, e.column)
}

/// A warning as plain values: message and line.
pub open spec fn warning_view(w: ValidationWarning) -> (Seq<char>, Option<u32>) {
    (w.message@, w.line)
}

/// The errors that the lines `ls` report, in order.
pub open spec fn error_entries(ls: Seq<Seq<char>>) -> Seq<(Seq<char>, Option<u32>, Option<u32>)>
    decreases ls.len(),
{
    if ls.len() == 0 {
        seq![]
    } else {
        let l = ls[ls.len() - 1];
        error_entries(ls.drop_last()) + if is_error_line(l) {
            seq![(l, line_of(l), column_of(l))]
        } else {
            seq![]
        }
    }
}

/// The warnings that the lines `ls` report, in order; a line that reports
/// an error is no warning.
pub open spec fn warning_entries(ls: Seq<Seq<char>>) -> Seq<(Seq<char>, Option<u32>)>
    decreases ls.len(),
{
    if ls.len() == 0 {
        seq![]
    } else {
        let l = ls[ls.len() - 1];
        warning_entries(ls.drop_last()) + if !is_error_line(l) && is_warning_line(l) {
            seq![(l, line_of(l))]
        } else {
            seq![]
        }
    }
}

/// Classify OpenSCAD's diagnostic output line by line into errors and
/// warnings; the code is valid when no line reports an error.
pub fn validation_from_stderr(stderr: &str) -> (r: ValidationResult)
    ensures
        r.errors@.map_values(|e: ValidationError| error_view(e)) == error_entries(lines(stderr@)),
        r.warnings@.map_values(|w: ValidationWarning| warning_view(w)) == warning_entries(
            lines(stderr@),
        ),
        r.valid == (r.errors@.len() == 0),
{
    let ls = lines_of(stderr);
    let ghost lv = ls.deep_view();
    let w_error = vec!['e', 'r', 'r', 'o', 'r'];
    let w_warning = vec!['w', 'a', 'r', 'n', 'i', 'n', 'g'];
    assert(w_error@ =~= seq!['e', 'r', 'r', 'o', 'r']);
    assert(w_warning@ =~= seq!['w', 'a', 'r', 'n', 'i', 'n', 'g']);
    let mut errors: Vec<ValidationError> = Vec::new();
    let mut warnings: Vec<ValidationWarning> = Vec::new();
    for i in 0..ls.len()
        invariant
            lv == ls.deep_view(),
            w_error@ == seq!['e', 'r', 'r', 'o', 'r'],
            w_warning@ == seq!['w', 'a', 'r', 'n', 'i', 'n', 'g'],
            errors@.map_values(|e: ValidationError| error_view(e)) == error_entries(lv.take(i as int)),
            warnings@.map_values(|w: ValidationWarning| warning_view(w)) == warning_entries(
                lv.take(i as int),
            ),
    {
        let line = &ls[i];
        let lower = to_lowercase(line.as_str());
        let v = chars_of(lower.as_str());
        let ghost l = lv[i as int];
        assert(lv.take(i + 1).drop_last() =~= lv.take(i as int));
        assert(lv.take(i + 1)[i as int] == l);
        let ghost e_before = errors@;
        let ghost w_before = warnings@;
        if contains_exec(&v, &w_error) {
            match parse_error_line(line.as_str()) {
                Some(e) => {
                    errors.push(e);
                },
                None => {},
            }
            assert(errors@.map_values(|e: ValidationError| error_view(e)) =~= e_before.map_values(
                |e: ValidationError| error_view(e),
            ).push((l, line_of(l), column_of(l))));
            assert(warnings@ == w_before);
        } else if contains_exec(&v, &w_warning) {
            match parse_warning_line(line.as_str()) {
                Some(w) => {
                    warnings.push(w);
                },
                None => {},
            }
            assert(warnings@.map_values(|w: ValidationWarning| warning_view(w)) =~= w_before.map_values(
                |w: ValidationWarning| warning_view(w),
            ).push((l, line_of(l))));
        }
    }
    assert(lv.take(ls.len() as int) =~= lv);
    let valid = errors.len() == 0;
    ValidationResult { valid, errors, warnings }
}

} // verus!
