//! The files that the tools read and write: the checks on the paths that
//! tool calls name, where exports, analyses and caches go, and which names
//! of a project directory are sources.
use vstd::prelude::*;
use vstd::string::*;
use crate::listing::{ends_with_scad, sorted_names, sorted_texts};
use crate::text::chars_of;

verus! {

broadcast use vstd::string::group_string_axioms;

/// `p` has a `/`-separated part `..` that starts at position `i`.
pub open spec fn parent_part_at(p: Seq<char>, i: int) -> bool {
    &&& 0 <= i && i + 2 <= p.len()
    &&& p[i] == '.' && p[i + 1] == '.'
    &&& i == 0 || p[i - 1] == '/'
    &&& i + 2 == p.len() || p[i + 2] == '/'
}

/// The path names a parent directory: one of its `/`-separated parts is `..`.
pub open spec fn has_parent_part(p: Seq<char>) -> bool {
    exists|i: int| parent_part_at(p, i)
}

/// Why a path that a tool call names is refused, if it is: it is absolute,
/// it climbs to a parent directory, or it holds a NUL character.
pub open spec fn path_rejection(p: Seq<char>) -> Option<Seq<char>> {
    if p.len() > 0 && p[0] == '/' {
        Some("Absolute file paths are not allowed"@)
    } else if has_parent_part(p) {
        Some("Path traversal with '..' is not allowed"@)
    } else if p.contains('\0') {
        Some("Path contains invalid null bytes"@)
    } else {
        None
    }
}

/// Checks a path that a tool call names, so that the call stays inside the
/// working directory.
pub fn validate_file_path(path: &str) -> (r: Result<(), String>)
    ensures
        r is Ok <==> path_rejection(path@) is None,
        r matches Err(m) ==> path_rejection(path@) == Some(m@),
{
    let v = chars_of(path);
    let n = v.len();
    if n > 0 && v[0] == '/' {
        return Err(String::from_str("Absolute file paths are not allowed"));
    }
    let mut i: usize = 0;
    while n >= 2 && i <= n - 2
        invariant
            n == v.len(),
            v@ == path@,
            !(n > 0 && v@[0] == '/'),
            forall|j: int| 0 <= j < i ==> !parent_part_at(v@, j),
        decreases n - i,
    {
        if v[i] == '.' && v[i + 1] == '.' && (i == 0 || v[i - 1] == '/') && (i + 2 == n || v[i
            + 2] == '/') {
            assert(parent_part_at(v@, i as int));
            return Err(String::from_str("Path traversal with '..' is not allowed"));
        }
        i = i + 1;
    }
    assert(!has_parent_part(v@)) by {
        assert forall|j: int| !parent_part_at(v@, j) by {
            if 0 <= j < i {
            }
        }
    }
    let mut k: usize = 0;
    while k < n
        invariant
            n == v.len(),
            v@ == path@,
            !(n > 0 && v@[0] == '/'),
            !has_parent_part(v@),
            forall|j: int| 0 <= j < k ==> v@[j] != '\0',
        decreases n - k,
    {
        if v[k] == '\0' {
            assert(v@.contains('\0')) by {
                assert(v@[k as int] == '\0');
            }
            return Err(String::from_str("Path contains invalid null bytes"));
        }
        k = k + 1;
    }
    assert(!v@.contains('\0'));
    Ok(())
}

/// Where the OpenSCAD source of a rendering or validation comes from.
#[derive(Debug, Clone)]
pub enum ScadSource {
    /// A file, named by a checked relative path.
    File(String),
    /// Source text given with the call.
    Content(String),
}

/// Picks the source of a call that takes `file` or `content`: the file
/// where both are given, after checking its path.
pub fn choose_source(file: Option<&str>, content: Option<&str>) -> (r: Result<ScadSource, String>)
    ensures
        match (file, content) {
            (None, None) => r matches Err(m) && m@ == "Need 'file' or 'content' parameter"@,
            (Some(f), _) => match path_rejection(f@) {
                Some(msg) => r matches Err(m) && m@ == msg,
                None => r matches Ok(ScadSource::File(g)) && g@ == f@,
            },
            (None, Some(c)) => r matches Ok(ScadSource::Content(t)) && t@ == c@,
        },
{
    match (file, content) {
        (None, None) => Err(String::from_str("Need 'file' or 'content' parameter")),
        (Some(f), _) => match validate_file_path(f) {
            Ok(()) => Ok(ScadSource::File(String::from_str(f))),
            Err(m) => Err(m),
        },
        (None, Some(c)) => Ok(ScadSource::Content(String::from_str(c))),
    }
}

/// Position of the last `/` of `s`, if any.
pub open spec fn last_slash(s: Seq<char>) -> Option<int>
    decreases s.len(),
{
    if s.len() == 0 {
        None
    } else if s.last() == '/' {
        Some(s.len() - 1)
    } else {
        last_slash(s.drop_last())
    }
}

/// What `std::path::Path::file_name` gives for a path: its last part that
/// is neither empty nor `.`, unless that is `..` or there is none (a
/// leading `.` being the current directory).
pub open spec fn file_name_of(p: Seq<char>) -> Option<Seq<char>>
    decreases p.len(),
{
    if p.len() == 0 {
        None
    } else if p.last() == '/' {
        file_name_of(p.drop_last())
    } else {
        let start = match last_slash(p) {
            Some(k) => k + 1,
            None => 0,
        };
        proof {
            lemma_last_slash(p);
        }
        let part = p.subrange(start, p.len() as int);
        if part == seq!['.'] {
            if start == 0 {
                None
            } else {
                file_name_of(p.subrange(0, start))
            }
        } else if part == seq!['.', '.'] {
            None
        } else {
            Some(part)
        }
    }
}

/// What `Path::file_stem` gives for a file name: the text before its last
/// `.`, or the whole name where it has no `.` other than a leading one.
pub open spec fn stem_of(name: Seq<char>) -> Seq<char> {
    match crate::listing::last_dot(name) {
        Some(d) => if d == 0 {
            name
        } else {
            name.subrange(0, d)
        },
        None => name,
    }
}

/// The name of the file that `export_scad` writes for `file` in `format`
/// under `cache_dir`: the stem of the file's name (`export` where it has
/// none), a `.` and the format.
pub open spec fn export_path_of(cache_dir: Seq<char>, file: Seq<char>, format: Seq<char>) -> Seq<char> {
    let base = match file_name_of(file) {
        Some(n) => stem_of(n),
        None => "export"@,
    };
    cache_dir + "/"@ + base + "."@ + format
}

pub proof fn lemma_last_slash(s: Seq<char>)
    ensures
        last_slash(s) matches Some(d) ==> 0 <= d < s.len() && s[d] == '/',
    decreases s.len(),
{
    if s.len() > 0 && s.last() != '/' {
        lemma_last_slash(s.drop_last());
    }
}

fn last_slash_exec(v: &Vec<char>, hi: usize) -> (r: Option<usize>)
    requires
        hi <= v.len(),
    ensures
        match (r, last_slash(v@.take(hi as int))) {
            (Some(a), Some(b)) => a as int == b,
            (None, None) => true,
            _ => false,
        },
{
    let mut k = hi;
    while k > 0 && v[k - 1] != '/'
        invariant
            k <= hi <= v.len(),
            last_slash(v@.take(hi as int)) == last_slash(v@.take(k as int)),
        decreases k,
    {
        assert(v@.take(k as int).drop_last() =~= v@.take(k - 1));
        k = k - 1;
    }
    if k == 0 {
        None
    } else {
        assert(v@.take(k as int).last() == v@[k - 1]);
        Some(k - 1)
    }
}

/// The file name of `v[..hi]`, as a window `v[a..b]`.
fn file_name_window(v: &Vec<char>, hi: usize) -> (r: Option<(usize, usize)>)
    requires
        hi <= v.len(),
    ensures
        match (r, file_name_of(v@.take(hi as int))) {
            (Some((a, b)), Some(n)) => a <= b <= hi && v@.subrange(a as int, b as int) == n,
            (None, None) => true,
            _ => false,
        },
    decreases hi,
{
    if hi == 0 {
        return None;
    }
    assert(v@.take(hi as int).last() == v@[hi - 1]);
    if v[hi - 1] == '/' {
        assert(v@.take(hi as int).drop_last() =~= v@.take(hi - 1));
        return file_name_window(v, hi - 1);
    }
    proof {
        lemma_last_slash(v@.take(hi as int));
    }
    let start = match last_slash_exec(v, hi) {
        Some(k) => k + 1,
        None => 0,
    };
    let ghost part = v@.take(hi as int).subrange(start as int, hi as int);
    assert(part =~= v@.subrange(start as int, hi as int));
    if hi - start == 1 && v[start] == '.' {
        assert(part =~= seq!['.']);
        if start == 0 {
            return None;
        }
        assert(v@.take(hi as int).subrange(0, start as int) =~= v@.take(start as int));
        return file_name_window(v, start);
    }
    assert(part != seq!['.']) by {
        if part == seq!['.'] {
            assert(part.len() == 1 && part[0] == v@[start as int]);
        }
    }
    if hi - start == 2 && v[start] == '.' && v[start + 1] == '.' {
        assert(part =~= seq!['.', '.']);
        return None;
    }
    assert(part != seq!['.', '.']) by {
        if part == seq!['.', '.'] {
            assert(part.len() == 2 && part[0] == v@[start as int] && part[1] == v@[start + 1]);
        }
    }
    Some((start, hi))
}

/// The file that `export_scad` writes.
pub fn export_output_path(cache_dir: &str, file: &str, format: &str) -> (r: String)
    ensures
        r@ == export_path_of(cache_dir@, file@, format@),
{
    let v = chars_of(file);
    assert(v@.take(v.len() as int) =~= v@);
    let base = match file_name_window(&v, v.len()) {
        Some((a, b)) => {
            let name = file.substring_char(a, b);
            let nv = chars_of(name);
            let mut k = nv.len();
            assert(nv@.take(k as int) =~= nv@);
            while k > 0 && nv[k - 1] != '.'
                invariant
                    k <= nv.len(),
                    crate::listing::last_dot(nv@) == crate::listing::last_dot(nv@.take(k as int)),
                decreases k,
            {
                assert(nv@.take(k as int).drop_last() =~= nv@.take(k - 1));
                k = k - 1;
            }
            if k <= 1 {
                proof {
                    if k == 1 {
                        assert(nv@.take(1).last() == nv@[0]);
                    } else {
                        assert(nv@.take(0) =~= Seq::<char>::empty());
                    }
                }
                String::from_str(name)
            } else {
                assert(nv@.take(k as int).last() == nv@[k - 1]);
                String::from_str(name.substring_char(0, k - 1))
            }
        },
        None => String::from_str("export"),
    };
    String::from_str(cache_dir).concat("/").concat(base.as_str()).concat(".").concat(format)
}

/// The directory that `export_scad` writes to, from the environment's
/// `SCAD_CACHE_DIR` and `HOME`.
pub fn export_cache_dir(scad_cache_dir: Option<&str>, home: Option<&str>) -> (r: String)
    ensures
        r@ == match (scad_cache_dir, home) {
            (Some(d), _) => d@,
            (None, Some(h)) => h@ + "/.cache/openscad-mcp"@,
            (None, None) => ".cache/openscad-mcp"@,
        },
{
    match (scad_cache_dir, home) {
        (Some(d), _) => String::from_str(d),
        (None, Some(h)) => String::from_str(h).concat("/.cache/openscad-mcp"),
        (None, None) => String::from_str(".cache/openscad-mcp"),
    }
}

/// The render cache that `clear_cache` empties, from the environment's
/// `HOME`.
pub fn render_cache_dir(home: Option<&str>) -> (r: String)
    ensures
        r@ == match home {
            Some(h) => h@ + "/.cache/openscad-mcp"@,
            None => ".cache/openscad-mcp"@,
        },
{
    match home {
        Some(h) => String::from_str(h).concat("/.cache/openscad-mcp"),
        None => String::from_str(".cache/openscad-mcp"),
    }
}

/// The directories that `get_libraries` searches, in order.
pub fn library_paths(home: Option<&str>) -> (r: Vec<String>)
    ensures
        r.deep_view() == match home {
            Some(h) => seq![
                h@ + "/.openscad/libraries"@,
                "/usr/share/openscad/libraries"@,
                "/opt/openscad/libraries"@,
            ],
            None => seq!["/usr/share/openscad/libraries"@, "/opt/openscad/libraries"@],
        },
{
    let mut r: Vec<String> = Vec::new();
    if let Some(h) = home {
        r.push(String::from_str(h).concat("/.openscad/libraries"));
    }
    r.push(String::from_str("/usr/share/openscad/libraries"));
    r.push(String::from_str("/opt/openscad/libraries"));
    assert(r.deep_view() =~= match home {
        Some(h) => seq![
            h@ + "/.openscad/libraries"@,
            "/usr/share/openscad/libraries"@,
            "/opt/openscad/libraries"@,
        ],
        None => seq!["/usr/share/openscad/libraries"@, "/opt/openscad/libraries"@],
    });
    r
}

/// The STL file that `analyze_model` exports `file` to: the name without a
/// final `.scad`, then `_analysis.stl`.
pub fn analysis_stl_path(file: &str) -> (r: String)
    ensures
        r@ == (if file@.len() >= 5 && file@.subrange(file@.len() - 5, file@.len() as int) == seq![
            '.',
            's',
            'c',
            'a',
            'd',
        ] {
            file@.subrange(0, file@.len() - 5)
        } else {
            file@
        }) + "_analysis.stl"@,
{
    let base = if ends_with_scad(file) {
        file.substring_char(0, file.unicode_len() - 5)
    } else {
        file
    };
    String::from_str(base).concat("_analysis.stl")
}

/// The number of triangles that `analyze_model` estimates for an STL file
/// of `size` bytes: about fifty bytes each.
pub fn estimated_triangle_count(size: u64) -> (r: u64)
    ensures
        r == size / 50,
{
    size / 50
}

/// The name ends in `.scad`.
pub open spec fn has_scad_suffix(n: Seq<char>) -> bool {
    n.len() >= 5 && n.subrange(n.len() - 5, n.len() as int) == seq!['.', 's', 'c', 'a', 'd']
}

/// The names of `s` that end in `.scad`, in order.
pub open spec fn scad_sources_of(s: Seq<Seq<char>>) -> Seq<Seq<char>>
    decreases s.len(),
{
    if s.len() == 0 {
        seq![]
    } else if has_scad_suffix(s.last()) {
        scad_sources_of(s.drop_last()).push(s.last())
    } else {
        scad_sources_of(s.drop_last())
    }
}

/// The OpenSCAD sources of a project directory listing: the names that end
/// in `.scad`, ordered.
pub fn project_sources(names: &Vec<String>) -> (r: Vec<String>)
    ensures
        sorted_texts(r.deep_view()),
        r.deep_view().to_multiset() == scad_sources_of(names.deep_view()).to_multiset(),
{
    let mut found: Vec<String> = Vec::new();
    let mut i: usize = 0;
    while i < names.len()
        invariant
            i <= names.len(),
            found.deep_view() == scad_sources_of(names.deep_view().take(i as int)),
        decreases names.len() - i,
    {
        let ghost before = found.deep_view();
        assert(names.deep_view().take(i + 1).drop_last() =~= names.deep_view().take(i as int));
        assert(names.deep_view().take(i + 1).last() == names.deep_view()[i as int]);
        if ends_with_scad(names[i].as_str()) {
            found.push(names[i].clone());
            assert(found.deep_view() =~= before.push(names.deep_view()[i as int]));
        }
        i = i + 1;
    }
    assert(names.deep_view().take(names.len() as int) =~= names.deep_view());
    sorted_names(&found)
}

/// The content of a model that `create_model` creates without content.
pub const NEW_MODEL_CONTENT: &'static str = "// New model\n";

/// The views that `render_perspectives` renders: each with its name, the
/// camera position and the camera target, as OpenSCAD's `--camera` reads
/// them.
pub open spec fn perspective_table() -> Seq<(Seq<char>, Seq<char>, Seq<char>)> {
    seq![
        ("front"@, "(0, -100, 0)"@, "(0, 0, 0)"@),
        ("back"@, "(0, 100, 0)"@, "(0, 0, 0)"@),
        ("left"@, "(-100, 0, 0)"@, "(0, 0, 0)"@),
        ("right"@, "(100, 0, 0)"@, "(0, 0, 0)"@),
        ("top"@, "(0, 0, 100)"@, "(0, 0, 0)"@),
        ("bottom"@, "(0, 0, -100)"@, "(0, 0, 0)"@),
    ]
}

/// The views that `render_perspectives` renders, in order.
pub fn perspectives() -> (r: Vec<(&'static str, &'static str, &'static str)>)
    ensures
        r@.map_values(|v: (&str, &str, &str)| (v.0@, v.1@, v.2@)) == perspective_table(),
{
    let r = vec![
        ("front", "(0, -100, 0)", "(0, 0, 0)"),
        ("back", "(0, 100, 0)", "(0, 0, 0)"),
        ("left", "(-100, 0, 0)", "(0, 0, 0)"),
        ("right", "(100, 0, 0)", "(0, 0, 0)"),
        ("top", "(0, 0, 100)", "(0, 0, 0)"),
        ("bottom", "(0, 0, -100)", "(0, 0, 0)"),
    ];
    assert(r@.map_values(|v: (&str, &str, &str)| (v.0@, v.1@, v.2@)) =~= perspective_table());
    r
}

} // verus!
