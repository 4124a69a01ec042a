//! Parsing and validation of rendering parameters: the image size, the
//! quality preset, the shape of camera vectors (their coordinates being
//! read by the caller) and the OpenSCAD variables given as JSON.
use vstd::prelude::*;
use vstd::string::*;
use std::collections::HashMap;
use crate::error::{Error, Result};
use crate::text::{
    chars_of, find_char, find_char_exec, is_white_space, lemma_find_char, parse_u64_range,
    parse_unsigned, white_space,
};

verus! {

broadcast use vstd::string::group_string_axioms;

/// Quality preset for rendering.
#[derive(Debug, Clone, Copy, PartialEq, Eq, Structural)]
pub enum QualityPreset {
    Draft,
    Normal,
    High,
}

/// What `str::to_lowercase` gives for `s`.
pub uninterp spec fn lowercase(s: Seq<char>) -> Seq<char>;

/// The ASCII lowercase of `c`: `A`–`Z` become `a`–`z`, all else stays.
pub open spec fn ascii_lower(c: char) -> char {
    if 'A' <= c && c <= 'Z' {
        ((c as u32) + 32) as char
    } else {
        c
    }
}

/// Every character of `s` is ASCII.
pub open spec fn is_ascii_text(s: Seq<char>) -> bool {
    forall|i: int| 0 <= i < s.len() ==> (s[i] as u32) < 128
}

/// What `str::to_lowercase` gives for `s`: on ASCII text the ASCII
/// lowercase of each character, elsewhere the Unicode mapping.
pub open spec fn lowercase_text(s: Seq<char>) -> Seq<char> {
    if is_ascii_text(s) {
        s.map_values(|c: char| ascii_lower(c))
    } else {
        lowercase(s)
    }
}

/// Trusted: calls `str::to_lowercase`, whose result depends on `s` alone
/// (Unicode lowercase mapping, independent of locale).  Claimed: the result
/// is `lowercase(s)`, and on ASCII text it is the ASCII lowercase of each
/// character, as std documents for ASCII.
#[verifier::external_body]
pub(crate) fn to_lowercase(s: &str) -> (r: String)
    ensures
        r@ == lowercase(s@),
        is_ascii_text(s@) ==> r@ == s@.map_values(|c: char| ascii_lower(c)),
{
    s.to_lowercase()
}

/// The preset that a lowercase name stands for.
pub open spec fn quality_named(name: Seq<char>) -> Option<QualityPreset> {
    if name == "draft"@ {
        Some(QualityPreset::Draft)
    } else if name == "normal"@ {
        Some(QualityPreset::Normal)
    } else if name == "high"@ {
        Some(QualityPreset::High)
    } else {
        None
    }
}

/// The message for a name that is no preset.
pub open spec fn unknown_quality_message() -> Seq<char> {
    "Quality must be: draft, normal, or high"@
}

/// The preset named by an already lowercased name.
pub fn quality_from_lowercase(name: &str) -> (r: Result<QualityPreset>)
    ensures
        match quality_named(name@) {
            Some(q) => r == Ok::<QualityPreset, Error>(q),
            None => r matches Err(Error::Validation(m)) && m@ == unknown_quality_message(),
        },
{
    let n = String::from_str(name);
    if n == String::from_str("draft") {
        Ok(QualityPreset::Draft)
    } else if n == String::from_str("normal") {
        Ok(QualityPreset::Normal)
    } else if n == String::from_str("high") {
        Ok(QualityPreset::High)
    } else {
        Err(Error::Validation(String::from_str("Quality must be: draft, normal, or high")))
    }
}

/// Parse quality preset, ignoring case.
pub fn parse_quality(input: &str) -> (r: Result<QualityPreset>)
    ensures
        match quality_named(lowercase_text(input@)) {
            Some(q) => r == Ok::<QualityPreset, Error>(q),
            None => r matches Err(Error::Validation(m)) && m@ == unknown_quality_message(),
        },
{
    let lower = to_lowercase(input);
    quality_from_lowercase(lower.as_str())
}

/// `s` without the leading characters that satisfy `p`.
pub open spec fn trim_start_by(s: Seq<char>, p: spec_fn(char) -> bool) -> Seq<char>
    decreases s.len(),
{
    if s.len() > 0 && p(s[0]) {
        trim_start_by(s.drop_first(), p)
    } else {
        s
    }
}

/// `s` without the trailing characters that satisfy `p`.
pub open spec fn trim_end_by(s: Seq<char>, p: spec_fn(char) -> bool) -> Seq<char>
    decreases s.len(),
{
    if s.len() > 0 && p(s[s.len() - 1]) {
        trim_end_by(s.drop_last(), p)
    } else {
        s
    }
}

/// What `str::trim` gives: no white space at either end.
pub open spec fn trim_ws(s: Seq<char>) -> Seq<char> {
    trim_end_by(trim_start_by(s, |c: char| is_white_space(c)), |c: char| is_white_space(c))
}

/// The part of an image size that holds the numbers: trimmed, then without
/// leading `[`, trailing `]`, leading `{` and trailing `}`, in that order.
pub open spec fn size_body(s: Seq<char>) -> Seq<char> {
    trim_end_by(
        trim_start_by(
            trim_end_by(trim_start_by(trim_ws(s), |c: char| c == '['), |c: char| c == ']'),
            |c: char| c == '{',
        ),
        |c: char| c == '}',
    )
}

/// The image size that `s` gives, or the message that refuses it.
pub open spec fn image_size_of(s: Seq<char>) -> std::result::Result<(u32, u32), Seq<char>> {
    let b = size_body(s);
    let c = find_char(b, ',', 0);
    if c >= b.len() {
        Err("Image size format: width,height"@)
    } else if find_char(b, ',', c + 1) < b.len() {
        Err("Image size must be [width, height]"@)
    } else {
        match parse_unsigned(trim_ws(b.subrange(0, c)), u32::MAX as nat) {
            None => Err("Invalid image width"@),
            Some(w) => match parse_unsigned(trim_ws(b.subrange(c + 1, b.len() as int)), u32::MAX as nat) {
                None => Err("Invalid image height"@),
                Some(h) => if w == 0 || h == 0 {
                    Err("Image dimensions must be positive"@)
                } else {
                    Ok((w as u32, h as u32))
                },
            },
        }
    }
}

/// The characters that a trim removes: those equal to `c`, or white space
/// when `c` is `None`.
pub open spec fn trim_pred(c: Option<char>) -> spec_fn(char) -> bool {
    match c {
        Some(ch) => |x: char| x == ch,
        None => |x: char| is_white_space(x),
    }
}

fn trimmed_char(x: char, c: Option<char>) -> (r: bool)
    ensures
        r == trim_pred(c)(x),
{
    match c {
        Some(ch) => x == ch,
        None => white_space(x),
    }
}

/// Moves `lo` past leading characters equal to `c` (or white space when
/// `c` is `None`) in the window `v[lo..hi]`.
pub(crate) fn trim_start_window(v: &Vec<char>, lo: usize, hi: usize, c: Option<char>) -> (r: usize)
    requires
        lo <= hi <= v.len(),
    ensures
        lo <= r <= hi,
        c matches Some(ch) ==> v@.subrange(r as int, hi as int) == trim_start_by(
            v@.subrange(lo as int, hi as int),
            |x: char| x == ch,
        ),
        c is None ==> v@.subrange(r as int, hi as int) == trim_start_by(
            v@.subrange(lo as int, hi as int),
            |x: char| is_white_space(x),
        ),
{
    let ghost p = trim_pred(c);
    let mut k = lo;
    while k < hi && trimmed_char(v[k], c)
        invariant
            lo <= k <= hi <= v.len(),
            p == trim_pred(c),
            trim_start_by(v@.subrange(lo as int, hi as int), p) == trim_start_by(
                v@.subrange(k as int, hi as int),
                p,
            ),
        decreases hi - k,
    {
        assert(v@.subrange(k as int, hi as int).drop_first() =~= v@.subrange(k + 1, hi as int));
        k = k + 1;
    }
    k
}

/// Moves `hi` before trailing characters equal to `c` (or white space when
/// `c` is `None`) in the window `v[lo..hi]`.
pub(crate) fn trim_end_window(v: &Vec<char>, lo: usize, hi: usize, c: Option<char>) -> (r: usize)
    requires
        lo <= hi <= v.len(),
    ensures
        lo <= r <= hi,
        c matches Some(ch) ==> v@.subrange(lo as int, r as int) == trim_end_by(
            v@.subrange(lo as int, hi as int),
            |x: char| x == ch,
        ),
        c is None ==> v@.subrange(lo as int, r as int) == trim_end_by(
            v@.subrange(lo as int, hi as int),
            |x: char| is_white_space(x),
        ),
{
    let ghost p = trim_pred(c);
    let mut k = hi;
    while k > lo && trimmed_char(v[k - 1], c)
        invariant
            lo <= k <= hi <= v.len(),
            p == trim_pred(c),
            trim_end_by(v@.subrange(lo as int, hi as int), p) == trim_end_by(
                v@.subrange(lo as int, k as int),
                p,
            ),
        decreases k - lo,
    {
        assert(v@.subrange(lo as int, k as int).drop_last() =~= v@.subrange(lo as int, k - 1));
        k = k - 1;
    }
    k
}

/// Parses the trimmed window `v[lo..hi]` as a `u32`.
fn parse_trimmed_u32(v: &Vec<char>, lo: usize, hi: usize) -> (r: Option<u32>)
    requires
        lo <= hi <= v.len(),
    ensures
        r matches Some(x) ==> parse_unsigned(trim_ws(v@.subrange(lo as int, hi as int)), u32::MAX as nat)
            == Some(x as nat),
        r is None ==> parse_unsigned(trim_ws(v@.subrange(lo as int, hi as int)), u32::MAX as nat)
            is None,
{
    let a = trim_start_window(v, lo, hi, None);
    let b = trim_end_window(v, a, hi, None);
    proof {
        assert(v@.subrange(lo as int, hi as int).subrange(a - lo, hi - lo) =~= v@.subrange(a as int, hi as int));
    }
    match parse_u64_range(v, a, b) {
        Some(x) => if x <= u32::MAX as u64 {
            Some(x as u32)
        } else {
            None
        },
        None => None,
    }
}

/// Parse image size, written `width,height`, optionally in brackets or braces.
pub fn parse_image_size(input: &str) -> (r: Result<[u32; 2]>)
    ensures
        match image_size_of(input@) {
            Ok((w, h)) => r matches Ok(a) && a@ == seq![w, h],
            Err(msg) => r matches Err(Error::Validation(m)) && m@ == msg,
        },
{
    let v = chars_of(input);
    let n = v.len();
    let lo = trim_start_window(&v, 0, n, None);
    let hi = trim_end_window(&v, lo, n, None);
    let lo = trim_start_window(&v, lo, hi, Some('['));
    let hi = trim_end_window(&v, lo, hi, Some(']'));
    let lo = trim_start_window(&v, lo, hi, Some('{'));
    let hi = trim_end_window(&v, lo, hi, Some('}'));
    let ghost b = v@.subrange(lo as int, hi as int);
    proof {
        assert(v@.subrange(0, n as int) =~= v@);
        assert(b == size_body(input@));
    }
    let c = find_char_window(&v, lo, lo, hi, ',');
    if c == hi {
        return Err(Error::Validation(String::from_str("Image size format: width,height")));
    }
    let c2 = find_char_window(&v, lo, c + 1, hi, ',');
    if c2 < hi {
        return Err(Error::Validation(String::from_str("Image size must be [width, height]")));
    }
    proof {
        assert(b.subrange(0, c - lo) =~= v@.subrange(lo as int, c as int));
        assert(b.subrange(c - lo + 1, b.len() as int) =~= v@.subrange(c + 1, hi as int));
    }
    let width = match parse_trimmed_u32(&v, lo, c) {
        Some(w) => w,
        None => {
            return Err(Error::Validation(String::from_str("Invalid image width")));
        },
    };
    let height = match parse_trimmed_u32(&v, c + 1, hi) {
        Some(h) => h,
        None => {
            return Err(Error::Validation(String::from_str("Invalid image height")));
        },
    };
    if width == 0 || height == 0 {
        return Err(Error::Validation(String::from_str("Image dimensions must be positive")));
    }
    let r = [width, height];
    assert(r@ =~= seq![width, height]);
    Ok(r)
}

/// First position in `v[lo..hi]` that holds `c`, or `hi`; in terms of the
/// window, `find_char` from its start.
fn find_char_window(v: &Vec<char>, lo: usize, start: usize, hi: usize, c: char) -> (r: usize)
    requires
        lo <= start <= hi <= v.len(),
    ensures
        start <= r <= hi,
        r - lo == find_char(v@.subrange(lo as int, hi as int), c, start - lo),
{
    let ghost w = v@.subrange(lo as int, hi as int);
    let mut k = start;
    while k < hi && v[k] != c
        invariant
            lo <= start <= k <= hi <= v.len(),
            w == v@.subrange(lo as int, hi as int),
            find_char(w, c, start - lo) == find_char(w, c, k - lo),
        decreases hi - k,
    {
        k = k + 1;
    }
    k
}

/// The part of a camera vector that holds the numbers: trimmed, then
/// without leading `[` and trailing `]`.
pub open spec fn camera_body(s: Seq<char>) -> Seq<char> {
    trim_end_by(trim_start_by(trim_ws(s), |c: char| c == '['), |c: char| c == ']')
}

/// The three comma-separated parts of `b`, as they stand, or the message
/// that refuses its shape.
pub open spec fn camera_split(b: Seq<char>) -> std::result::Result<(Seq<char>, Seq<char>, Seq<char>), Seq<char>> {
    let c1 = find_char(b, ',', 0);
    if c1 >= b.len() {
        Err("Camera position format: x,y,z"@)
    } else {
        let c2 = find_char(b, ',', c1 + 1);
        if c2 >= b.len() || find_char(b, ',', c2 + 1) < b.len() {
            Err("Camera position must have 3 values"@)
        } else {
            Ok((b.subrange(0, c1), b.subrange(c1 + 1, c2), b.subrange(c2 + 1, b.len() as int)))
        }
    }
}

/// The trimmed part starts with the label (`x:`, `y:` or `z:`, as `label`
/// says) of the braced form.
pub open spec fn has_label(part: Seq<char>, label: char) -> bool {
    let t = trim_ws(part);
    t.len() >= 2 && t[0] == label && t[1] == ':'
}

/// One coordinate text of a camera vector: the trimmed part, without its
/// label where it has one.
pub open spec fn coordinate_text(part: Seq<char>, label: char) -> Seq<char> {
    let t = trim_ws(part);
    if has_label(part, label) {
        trim_ws(t.subrange(2, t.len() as int))
    } else {
        t
    }
}

/// The coordinate texts of the braced form `{x: x, y: y, z: z}`, where `b`
/// is written so: in braces, three parts, labelled `x:`, `y:` and `z:` in
/// that order.
pub open spec fn braced_parts(b: Seq<char>) -> Option<(Seq<char>, Seq<char>, Seq<char>)> {
    if b.len() >= 2 && b[0] == '{' && b[b.len() - 1] == '}' {
        match camera_split(b.subrange(1, b.len() - 1)) {
            Ok((x, y, z)) => if has_label(x, 'x') && has_label(y, 'y') && has_label(z, 'z') {
                Some((coordinate_text(x, 'x'), coordinate_text(y, 'y'), coordinate_text(z, 'z')))
            } else {
                None
            },
            Err(_) => None,
        }
    } else {
        None
    }
}

/// The three coordinate texts of a camera vector, or the message that
/// refuses its shape: the braced form, where the vector is written so;
/// otherwise `x,y,z`, optionally in brackets, each part trimmed.
pub open spec fn camera_parts_of(s: Seq<char>) -> std::result::Result<(Seq<char>, Seq<char>, Seq<char>), Seq<char>> {
    let b = camera_body(s);
    match braced_parts(b) {
        Some(t) => Ok(t),
        None => match camera_split(b) {
            Ok((x, y, z)) => Ok((trim_ws(x), trim_ws(y), trim_ws(z))),
            Err(m) => Err(m),
        },
    }
}

/// The positions of the two commas of the window `v[lo..hi]` where it has
/// three parts, or the message that refuses its shape.
fn camera_commas(v: &Vec<char>, lo: usize, hi: usize) -> (r: std::result::Result<(usize, usize), String>)
    requires
        lo <= hi <= v.len(),
    ensures
        match camera_split(v@.subrange(lo as int, hi as int)) {
            Ok((x, y, z)) => r matches Ok((c1, c2)) && lo <= c1 < c2 < hi && x == v@.subrange(
                lo as int,
                c1 as int,
            ) && y == v@.subrange(c1 + 1, c2 as int) && z == v@.subrange(c2 + 1, hi as int),
            Err(m) => r matches Err(e) && e@ == m,
        },
{
    let ghost b = v@.subrange(lo as int, hi as int);
    let c1 = find_char_window(v, lo, lo, hi, ',');
    if c1 == hi {
        return Err(String::from_str("Camera position format: x,y,z"));
    }
    let c2 = find_char_window(v, lo, c1 + 1, hi, ',');
    if c2 == hi {
        return Err(String::from_str("Camera position must have 3 values"));
    }
    let c3 = find_char_window(v, lo, c2 + 1, hi, ',');
    if c3 < hi {
        return Err(String::from_str("Camera position must have 3 values"));
    }
    proof {
        assert(b.subrange(0, c1 - lo) =~= v@.subrange(lo as int, c1 as int));
        assert(b.subrange(c1 - lo + 1, c2 - lo) =~= v@.subrange(c1 + 1, c2 as int));
        assert(b.subrange(c2 - lo + 1, b.len() as int) =~= v@.subrange(c2 + 1, hi as int));
    }
    Ok((c1, c2))
}

/// Whether the window `v[lo..hi]`, trimmed, starts with the label.
fn label_window(v: &Vec<char>, lo: usize, hi: usize, label: char) -> (r: bool)
    requires
        lo <= hi <= v.len(),
    ensures
        r == has_label(v@.subrange(lo as int, hi as int), label),
{
    let a = trim_start_window(v, lo, hi, None);
    let b = trim_end_window(v, a, hi, None);
    proof {
        assert(v@.subrange(lo as int, hi as int).subrange(a - lo, hi - lo) =~= v@.subrange(a as int, hi as int));
    }
    b - a >= 2 && v[a] == label && v[a + 1] == ':'
}

/// The trimmed text of the window `v[lo..hi]`.
fn trimmed_text(s: &str, v: &Vec<char>, lo: usize, hi: usize) -> (r: String)
    requires
        v@ == s@,
        lo <= hi <= v.len(),
    ensures
        r@ == trim_ws(v@.subrange(lo as int, hi as int)),
{
    let a = trim_start_window(v, lo, hi, None);
    let b = trim_end_window(v, a, hi, None);
    proof {
        assert(v@.subrange(lo as int, hi as int).subrange(a - lo, hi - lo) =~= v@.subrange(a as int, hi as int));
    }
    String::from_str(s.substring_char(a, b))
}

/// The coordinate text of the window `v[lo..hi]`, without its label.
fn coordinate_window(s: &str, v: &Vec<char>, lo: usize, hi: usize, label: char) -> (r: String)
    requires
        v@ == s@,
        lo <= hi <= v.len(),
    ensures
        r@ == coordinate_text(v@.subrange(lo as int, hi as int), label),
{
    let a = trim_start_window(v, lo, hi, None);
    let b = trim_end_window(v, a, hi, None);
    let ghost t = v@.subrange(a as int, b as int);
    proof {
        assert(v@.subrange(lo as int, hi as int).subrange(a - lo, hi - lo) =~= v@.subrange(a as int, hi as int));
        assert(t == trim_ws(v@.subrange(lo as int, hi as int)));
    }
    if b - a >= 2 && v[a] == label && v[a + 1] == ':' {
        proof {
            assert(t.subrange(2, t.len() as int) =~= v@.subrange(a + 2, b as int));
        }
        trimmed_text(s, v, a + 2, b)
    } else {
        String::from_str(s.substring_char(a, b))
    }
}

/// Splits a camera position or target, written `x,y,z`, optionally in
/// brackets, or as `{x: x, y: y, z: z}`, into its three coordinate texts.
pub fn camera_parts(input: &str) -> (r: Result<[String; 3]>)
    ensures
        match camera_parts_of(input@) {
            Ok((x, y, z)) => r matches Ok(a) && a@[0]@ == x && a@[1]@ == y && a@[2]@ == z,
            Err(msg) => r matches Err(Error::Validation(m)) && m@ == msg,
        },
{
    let v = chars_of(input);
    let n = v.len();
    let lo = trim_start_window(&v, 0, n, None);
    let hi = trim_end_window(&v, lo, n, None);
    let lo = trim_start_window(&v, lo, hi, Some('['));
    let hi = trim_end_window(&v, lo, hi, Some(']'));
    let ghost b = v@.subrange(lo as int, hi as int);
    proof {
        assert(v@.subrange(0, n as int) =~= v@);
        assert(b == camera_body(input@));
    }
    if hi - lo >= 2 && v[lo] == '{' && v[hi - 1] == '}' {
        proof {
            assert(b.subrange(1, b.len() - 1) =~= v@.subrange(lo + 1, hi - 1));
        }
        match camera_commas(&v, lo + 1, hi - 1) {
            Ok((c1, c2)) => {
                if label_window(&v, lo + 1, c1, 'x') && label_window(&v, c1 + 1, c2, 'y')
                    && label_window(&v, c2 + 1, hi - 1, 'z') {
                    let x = coordinate_window(input, &v, lo + 1, c1, 'x');
                    let y = coordinate_window(input, &v, c1 + 1, c2, 'y');
                    let z = coordinate_window(input, &v, c2 + 1, hi - 1, 'z');
                    return Ok([x, y, z]);
                }
            },
            Err(_) => {},
        }
    }
    match camera_commas(&v, lo, hi) {
        Ok((c1, c2)) => {
            let x = trimmed_text(input, &v, lo, c1);
            let y = trimmed_text(input, &v, c1 + 1, c2);
            let z = trimmed_text(input, &v, c2 + 1, hi);
            Ok([x, y, z])
        },
        Err(m) => Err(Error::Validation(m)),
    }
}

/// The variables that a JSON text denotes: where the text is a JSON object
/// whose values are all strings, the map from its keys to its values.
pub uninterp spec fn json_string_object(text: Seq<char>) -> Option<Map<Seq<char>, Seq<char>>>;

/// Trusted: calls `serde_json::from_str::<HashMap<String, String>>`, whose
/// outcome depends on the text alone.  Claimed: it succeeds exactly where
/// `json_string_object` gives a map, and then holds that map.  The message
/// of a failure (serde_json's description of the syntax error and its
/// position) is handed on without anything being claimed of it.
#[verifier::external_body]
fn json_string_map(input: &str) -> (r: std::result::Result<HashMap<String, String>, String>)
    ensures
        r is Ok <==> json_string_object(input@) is Some,
        r matches Ok(m) ==> json_string_object(input@) == Some(m.deep_view()),
{
    serde_json::from_str::<HashMap<String, String>>(input).map_err(|e| e.to_string())
}

/// The variables for a JSON reading that succeeded, or the serialization
/// error that reports the reader's message.
pub fn variables_from(
    parsed: std::result::Result<HashMap<String, String>, String>,
) -> (r: Result<HashMap<String, String>>)
    ensures
        match parsed {
            Ok(m) => r matches Ok(v) && v == m,
            Err(msg) => r matches Err(Error::Serialization(t)) && t@ == "Failed to parse variables: "@
                + msg@,
        },
{
    match parsed {
        Ok(m) => Ok(m),
        Err(msg) => Err(
            Error::Serialization(String::from_str("Failed to parse variables: ").concat(msg.as_str())),
        ),
    }
}

/// Parse OpenSCAD variables from a JSON object of strings.
pub fn parse_variables(input: &str) -> (r: Result<HashMap<String, String>>)
    ensures
        r is Ok <==> json_string_object(input@) is Some,
        r matches Ok(m) ==> json_string_object(input@) == Some(m.deep_view()),
        r matches Err(e) ==> (e matches Error::Serialization(t) && exists|m: Seq<char>|
            t@ == "Failed to parse variables: "@ + m),
{
    let parsed = json_string_map(input);
    let ghost reason = match &parsed {
        Ok(_) => Seq::<char>::empty(),
        Err(msg) => msg@,
    };
    let r = variables_from(parsed);
    assert(r matches Err(Error::Serialization(t)) ==> t@ == "Failed to parse variables: "@ + reason);
    r
}

} // verus!
