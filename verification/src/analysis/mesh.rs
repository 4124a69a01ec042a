//! The counting part of reading an ASCII STL mesh: which lines open and
//! close facets and loops, which lines hold the vertices that count, and
//! when a mesh holds no triangle at all.  The coordinates themselves are
//! read by the caller.
use vstd::prelude::*;
use crate::error::{Error, Result};
use crate::render::params::{trim_end_by, trim_end_window, trim_start_by, trim_start_window, trim_ws};
use crate::text::is_white_space;
use crate::text::{chars_of, occurs_at, occurs_at_exec};

verus! {

/// What a line of an ASCII STL file is, by the word it starts with once
/// trimmed.
#[derive(Debug, Clone, Copy, PartialEq, Eq, Structural)]
pub enum StlLine {
    Facet,
    EndFacet,
    OuterLoop,
    EndLoop,
    Vertex,
    Other,
}

/// `s` starts with `w`.
pub open spec fn starts_with(s: Seq<char>, w: Seq<char>) -> bool {
    w.len() <= s.len() && s.subrange(0, w.len() as int) == w
}

/// The kind of a line: the first of the words `facet`, `endfacet`,
/// `outer loop`, `endloop` and `vertex` that the trimmed line starts with.
pub open spec fn stl_line_kind(line: Seq<char>) -> StlLine {
    let t = trim_ws(line);
    if starts_with(t, "facet"@) {
        StlLine::Facet
    } else if starts_with(t, "endfacet"@) {
        StlLine::EndFacet
    } else if starts_with(t, "outer loop"@) {
        StlLine::OuterLoop
    } else if starts_with(t, "endloop"@) {
        StlLine::EndLoop
    } else if starts_with(t, "vertex"@) {
        StlLine::Vertex
    } else {
        StlLine::Other
    }
}

proof fn lemma_trim_start_result(s: Seq<char>, p: spec_fn(char) -> bool)
    ensures
        trim_start_by(s, p).len() == 0 || !p(trim_start_by(s, p)[0]),
        trim_start_by(s, p).len() <= s.len(),
    decreases s.len(),
{
    if s.len() > 0 && p(s[0]) {
        lemma_trim_start_result(s.drop_first(), p);
    }
}

proof fn lemma_trim_end_result(s: Seq<char>, p: spec_fn(char) -> bool)
    ensures
        trim_end_by(s, p).len() <= s.len(),
        trim_end_by(s, p) == s.subrange(0, trim_end_by(s, p).len() as int),
        trim_end_by(s, p).len() == 0 || !p(trim_end_by(s, p).last()),
    decreases s.len(),
{
    if s.len() > 0 && p(s[s.len() - 1]) {
        lemma_trim_end_result(s.drop_last(), p);
        let r = trim_end_by(s.drop_last(), p);
        assert(s.drop_last().subrange(0, r.len() as int) =~= s.subrange(0, r.len() as int));
    } else {
        assert(s.subrange(0, s.len() as int) =~= s);
    }
}

/// Trimming trimmed text changes nothing.
proof fn lemma_trim_idempotent(s: Seq<char>)
    ensures
        trim_ws(trim_ws(s)) == trim_ws(s),
{
    let p = |c: char| is_white_space(c);
    let t = trim_start_by(s, p);
    lemma_trim_start_result(s, p);
    let u = trim_end_by(t, p);
    lemma_trim_end_result(t, p);
    if u.len() > 0 {
        assert(u[0] == t[0]);
    }
    assert(trim_start_by(u, p) == u);
    assert(trim_end_by(u, p) == u);
}

/// Law: what kind of STL line a line is depends on its trimmed text alone:
/// the indentation before a keyword, and blanks after the line, never
/// change it.
pub proof fn law_stl_kind_ignores_blanks(line: Seq<char>)
    ensures
        stl_line_kind(line) == stl_line_kind(trim_ws(line)),
{
    lemma_trim_idempotent(line);
}

/// Law: two lines with the same trimmed text are of the same kind.
pub proof fn law_stl_kind_by_trimmed_text(a: Seq<char>, b: Seq<char>)
    requires
        trim_ws(a) == trim_ws(b),
    ensures
        stl_line_kind(a) == stl_line_kind(b),
{
    law_stl_kind_ignores_blanks(a);
    law_stl_kind_ignores_blanks(b);
}

proof fn lemma_trim_start_skips(w: Seq<char>, y: Seq<char>, p: spec_fn(char) -> bool)
    requires
        forall|i: int| 0 <= i < w.len() ==> p(#[trigger] w[i]),
        y.len() > 0 && !p(y[0]),
    ensures
        trim_start_by(w + y, p) == y,
    decreases w.len(),
{
    if w.len() == 0 {
        assert(w + y =~= y);
    } else {
        assert((w + y).drop_first() =~= w.drop_first() + y);
        lemma_trim_start_skips(w.drop_first(), y, p);
    }
}

proof fn lemma_trim_end_keeps(s: Seq<char>, p: spec_fn(char) -> bool, k: int)
    requires
        0 < k <= s.len(),
        !p(s[k - 1]),
    ensures
        trim_end_by(s, p).len() >= k,
        trim_end_by(s, p) == s.subrange(0, trim_end_by(s, p).len() as int),
    decreases s.len(),
{
    lemma_trim_end_result(s, p);
    if s.len() > k && p(s[s.len() - 1]) {
        lemma_trim_end_keeps(s.drop_last(), p, k);
    }
}

/// The trimmed text of an indented line `w + kw + x` starts with `kw`,
/// where `kw` ends in a character that is not white space.
proof fn lemma_trimmed_starts_with(w: Seq<char>, kw: Seq<char>, x: Seq<char>)
    requires
        forall|i: int| 0 <= i < w.len() ==> is_white_space(#[trigger] w[i]),
        kw.len() > 0,
        !is_white_space(kw[0]),
        !is_white_space(kw[kw.len() - 1]),
    ensures
        starts_with(trim_ws(w + kw + x), kw),
{
    let p = |c: char| is_white_space(c);
    let y = kw + x;
    assert(w + kw + x =~= w + y);
    lemma_trim_start_skips(w, y, p);
    lemma_trim_end_keeps(y, p, kw.len() as int);
    lemma_trim_end_result(y, p);
    let t = trim_ws(w + kw + x);
    assert(trim_start_by(w + kw + x, p) == y);
    assert(t == trim_end_by(y, p));
    assert(t == y.subrange(0, t.len() as int));
    assert(y.subrange(0, kw.len() as int) =~= kw);
    assert(t.len() >= kw.len());
    assert forall|i: int| 0 <= i < kw.len() implies t[i] == y[i] by {
        assert(y.subrange(0, t.len() as int)[i] == y[i]);
    }
    assert(t.subrange(0, kw.len() as int) =~= y.subrange(0, kw.len() as int));
}

/// Law: a line made of white space, one of the words `facet`, `endfacet`,
/// `outer loop`, `endloop` or `vertex`, and anything after it is of the
/// word's kind, however it is indented.
pub proof fn law_stl_kind_by_first_word(w: Seq<char>, x: Seq<char>)
    requires
        forall|i: int| 0 <= i < w.len() ==> is_white_space(#[trigger] w[i]),
    ensures
        stl_line_kind(w + "facet"@ + x) == StlLine::Facet,
        stl_line_kind(w + "endfacet"@ + x) == StlLine::EndFacet,
        stl_line_kind(w + "outer loop"@ + x) == StlLine::OuterLoop,
        stl_line_kind(w + "endloop"@ + x) == StlLine::EndLoop,
        stl_line_kind(w + "vertex"@ + x) == StlLine::Vertex,
{
    reveal_strlit("facet");
    reveal_strlit("endfacet");
    reveal_strlit("outer loop");
    reveal_strlit("endloop");
    reveal_strlit("vertex");
    lemma_trimmed_starts_with(w, "facet"@, x);
    lemma_trimmed_starts_with(w, "endfacet"@, x);
    lemma_trimmed_starts_with(w, "outer loop"@, x);
    lemma_trimmed_starts_with(w, "endloop"@, x);
    lemma_trimmed_starts_with(w, "vertex"@, x);
    let t1 = trim_ws(w + "endfacet"@ + x);
    assert(t1.subrange(0, 8) == "endfacet"@);
    assert(t1.subrange(0, 8)[0] == t1[0]);
    assert(t1[0] == 'e');
    assert(!starts_with(t1, "facet"@)) by {
        if starts_with(t1, "facet"@) {
            assert(t1.subrange(0, 5)[0] == t1[0]);
        }
    }
    let t2 = trim_ws(w + "outer loop"@ + x);
    assert(t2.subrange(0, 10) == "outer loop"@);
    assert(t2.subrange(0, 10)[0] == t2[0]);
    assert(t2[0] == 'o');
    assert(!starts_with(t2, "facet"@)) by {
        if starts_with(t2, "facet"@) {
            assert(t2.subrange(0, 5)[0] == t2[0]);
        }
    }
    assert(!starts_with(t2, "endfacet"@)) by {
        if starts_with(t2, "endfacet"@) {
            assert(t2.subrange(0, 8)[0] == t2[0]);
        }
    }
    let t3 = trim_ws(w + "endloop"@ + x);
    assert(t3.subrange(0, 7) == "endloop"@);
    assert(t3.subrange(0, 7)[0] == t3[0]);
    assert(t3.subrange(0, 7)[3] == t3[3]);
    assert(t3[0] == 'e' && t3[3] == 'l');
    assert(!starts_with(t3, "facet"@)) by {
        if starts_with(t3, "facet"@) {
            assert(t3.subrange(0, 5)[0] == t3[0]);
        }
    }
    assert(!starts_with(t3, "endfacet"@)) by {
        if starts_with(t3, "endfacet"@) {
            assert(t3.subrange(0, 8)[3] == t3[3]);
        }
    }
    assert(!starts_with(t3, "outer loop"@)) by {
        if starts_with(t3, "outer loop"@) {
            assert(t3.subrange(0, 10)[0] == t3[0]);
        }
    }
    let t4 = trim_ws(w + "vertex"@ + x);
    assert(t4.subrange(0, 6) == "vertex"@);
    assert(t4.subrange(0, 6)[0] == t4[0]);
    assert(t4[0] == 'v');
    assert(!starts_with(t4, "facet"@)) by {
        if starts_with(t4, "facet"@) {
            assert(t4.subrange(0, 5)[0] == t4[0]);
        }
    }
    assert(!starts_with(t4, "endfacet"@)) by {
        if starts_with(t4, "endfacet"@) {
            assert(t4.subrange(0, 8)[0] == t4[0]);
        }
    }
    assert(!starts_with(t4, "outer loop"@)) by {
        if starts_with(t4, "outer loop"@) {
            assert(t4.subrange(0, 10)[0] == t4[0]);
        }
    }
    assert(!starts_with(t4, "endloop"@)) by {
        if starts_with(t4, "endloop"@) {
            assert(t4.subrange(0, 7)[0] == t4[0]);
        }
    }
}

fn starts_with_window(v: &Vec<char>, lo: usize, hi: usize, w: &Vec<char>) -> (r: bool)
    requires
        lo <= hi <= v.len(),
    ensures
        r == starts_with(v@.subrange(lo as int, hi as int), w@),
{
    if w.len() > hi - lo {
        return false;
    }
    let r = occurs_at_exec(v, lo, w.as_slice());
    assert(v@.subrange(lo as int, hi as int).subrange(0, w@.len() as int) =~= v@.subrange(
        lo as int,
        lo + w@.len(),
    ));
    r
}

/// Classifies one line of an ASCII STL file.
pub fn classify_stl_line(line: &str) -> (r: StlLine)
    ensures
        r == stl_line_kind(line@),
{
    let v = chars_of(line);
    let n = v.len();
    let lo = trim_start_window(&v, 0, n, None);
    let hi = trim_end_window(&v, lo, n, None);
    proof {
        assert(v@.subrange(0, n as int) =~= v@);
        reveal_strlit("facet");
        reveal_strlit("endfacet");
        reveal_strlit("outer loop");
        reveal_strlit("endloop");
        reveal_strlit("vertex");
    }
    let facet = vec!['f', 'a', 'c', 'e', 't'];
    let endfacet = vec!['e', 'n', 'd', 'f', 'a', 'c', 'e', 't'];
    let outer_loop = vec!['o', 'u', 't', 'e', 'r', ' ', 'l', 'o', 'o', 'p'];
    let endloop = vec!['e', 'n', 'd', 'l', 'o', 'o', 'p'];
    let vertex = vec!['v', 'e', 'r', 't', 'e', 'x'];
    assert(facet@ =~= "facet"@);
    assert(endfacet@ =~= "endfacet"@);
    assert(outer_loop@ =~= "outer loop"@);
    assert(endloop@ =~= "endloop"@);
    assert(vertex@ =~= "vertex"@);
    if starts_with_window(&v, lo, hi, &facet) {
        StlLine::Facet
    } else if starts_with_window(&v, lo, hi, &endfacet) {
        StlLine::EndFacet
    } else if starts_with_window(&v, lo, hi, &outer_loop) {
        StlLine::OuterLoop
    } else if starts_with_window(&v, lo, hi, &endloop) {
        StlLine::EndLoop
    } else if starts_with_window(&v, lo, hi, &vertex) {
        StlLine::Vertex
    } else {
        StlLine::Other
    }
}

/// The counts kept while an ASCII STL file is read line by line.
#[derive(Debug, Clone, Copy, PartialEq, Eq, Structural)]
pub struct StlScan {
    pub triangle_count: u32,
    pub vertex_count: u32,
    pub in_facet: bool,
    pub in_loop: bool,
}

impl StlScan {
    /// The counts before the first line.
    pub fn new() -> (r: Self)
        ensures
            r == (StlScan { triangle_count: 0, vertex_count: 0, in_facet: false, in_loop: false }),
    {
        StlScan { triangle_count: 0, vertex_count: 0, in_facet: false, in_loop: false }
    }

    /// Takes a line of the given kind into account; the answer says whether
    /// its coordinates are to be read (a vertex inside a loop).
    pub fn observe(&mut self, kind: StlLine) -> (read_vertex: bool)
        requires
            kind == StlLine::Facet ==> old(self).triangle_count < u32::MAX,
        ensures
            read_vertex == (kind == StlLine::Vertex && old(self).in_loop),
            final(self).vertex_count == old(self).vertex_count,
            final(self).triangle_count == old(self).triangle_count + if kind == StlLine::Facet {
                1int
            } else {
                0
            },
            final(self).in_facet == match kind {
                StlLine::Facet => true,
                StlLine::EndFacet => false,
                _ => old(self).in_facet,
            },
            final(self).in_loop == match kind {
                StlLine::OuterLoop => true,
                StlLine::EndLoop => false,
                _ => old(self).in_loop,
            },
    {
        match kind {
            StlLine::Facet => {
                self.in_facet = true;
                self.triangle_count = self.triangle_count + 1;
                false
            },
            StlLine::EndFacet => {
                self.in_facet = false;
                false
            },
            StlLine::OuterLoop => {
                self.in_loop = true;
                false
            },
            StlLine::EndLoop => {
                self.in_loop = false;
                false
            },
            StlLine::Vertex => self.in_loop,
            StlLine::Other => false,
        }
    }

    /// Counts a vertex whose three coordinates were read.
    pub fn count_vertex(&mut self)
        requires
            old(self).vertex_count < u32::MAX,
        ensures
            *final(self) == (StlScan { vertex_count: (old(self).vertex_count + 1) as u32, ..*old(self) }),
    {
        self.vertex_count = self.vertex_count + 1;
    }

    /// The triangle and vertex counts of the whole file, or the error for
    /// a file without triangles.
    pub fn finish(&self) -> (r: Result<(u32, u32)>)
        ensures
            self.triangle_count == 0 ==> (r matches Err(Error::Validation(m)) && m@
                == "No triangles found in STL file"@),
            self.triangle_count > 0 ==> (r matches Ok(c) && c == (self.triangle_count, self.vertex_count)),
    {
        if self.triangle_count == 0 {
            Err(Error::Validation(String::from_str("No triangles found in STL file")))
        } else {
            Ok((self.triangle_count, self.vertex_count))
        }
    }
}

/// What the lines of an ASCII STL file give, read in order: the number of
/// facets, the positions of the vertex lines that count (inside a loop, with
/// three coordinates that parse, as each line's flag says), and whether a
/// loop is open after them.
pub open spec fn stl_state(ls: Seq<(Seq<char>, bool)>) -> (int, Seq<int>, bool)
    decreases ls.len(),
{
    if ls.len() == 0 {
        (0, seq![], false)
    } else {
        let (t, vs, in_loop) = stl_state(ls.drop_last());
        let (line, parsed) = ls.last();
        match stl_line_kind(line) {
            StlLine::Facet => (t + 1, vs, in_loop),
            StlLine::OuterLoop => (t, vs, true),
            StlLine::EndLoop => (t, vs, false),
            StlLine::Vertex => if in_loop && parsed {
                (t, vs.push(ls.len() - 1), in_loop)
            } else {
                (t, vs, in_loop)
            },
            _ => (t, vs, in_loop),
        }
    }
}

proof fn lemma_stl_state_bounds(ls: Seq<(Seq<char>, bool)>)
    ensures
        0 <= stl_state(ls).0 <= ls.len(),
        stl_state(ls).1.len() <= ls.len(),
        forall|k: int| 0 <= k < stl_state(ls).1.len() ==> 0 <= #[trigger] stl_state(ls).1[k] < ls.len(),
    decreases ls.len(),
{
    if ls.len() > 0 {
        lemma_stl_state_bounds(ls.drop_last());
    }
}

/// The counts of a whole ASCII STL file, from its lines, each with whether
/// its three coordinates parse: `None` where a count passes `u32::MAX`; the
/// error for a file without facets; otherwise the number of facets and the
/// positions of the vertex lines that count, in order (their number is the
/// vertex count).
pub fn stl_summary(lines: &Vec<(String, bool)>) -> (r: Option<Result<(u32, Vec<usize>)>>)
    ensures
        ({
            let (t, vs, _) = stl_state(lines.deep_view());
            &&& (r is None <==> (t > u32::MAX || vs.len() > u32::MAX))
            &&& (r is Some && t == 0 ==> (r matches Some(Err(Error::Validation(m))) && m@
                == "No triangles found in STL file"@))
            &&& (r is Some && t > 0 ==> (r matches Some(Ok((c, idx))) && c == t && idx@.map_values(
                |i: usize| i as int,
            ) == vs))
        }),
{
    let ghost all = lines.deep_view();
    let mut triangles: u64 = 0;
    let mut vertices: Vec<usize> = Vec::new();
    let mut in_loop = false;
    for i in 0..lines.len()
        invariant
            all == lines.deep_view(),
            all.len() == lines.len(),
            ({
                let (t, vs, l) = stl_state(all.take(i as int));
                t == triangles && vertices@.map_values(|x: usize| x as int) == vs && l == in_loop
            }),
            triangles <= i,
    {
        proof {
            lemma_stl_state_bounds(all.take(i as int));
            assert(all.take(i + 1).drop_last() =~= all.take(i as int));
            assert(all.take(i + 1).last() == all[i as int]);
        }
        let kind = classify_stl_line(lines[i].0.as_str());
        let ghost before = vertices@;
        match kind {
            StlLine::Facet => {
                triangles = triangles + 1;
            },
            StlLine::OuterLoop => {
                in_loop = true;
            },
            StlLine::EndLoop => {
                in_loop = false;
            },
            StlLine::Vertex => {
                if in_loop && lines[i].1 {
                    vertices.push(i);
                    assert(vertices@.map_values(|x: usize| x as int) =~= before.map_values(
                        |x: usize| x as int,
                    ).push(i as int));
                }
            },
            _ => {},
        }
    }
    assert(all.take(lines.len() as int) =~= all);
    if triangles > 4294967295u64 || vertices.len() > 4294967295usize {
        return None;
    }
    if triangles == 0 {
        Some(Err(Error::Validation(String::from_str("No triangles found in STL file"))))
    } else {
        Some(Ok((triangles as u32, vertices)))
    }
}

} // verus!
