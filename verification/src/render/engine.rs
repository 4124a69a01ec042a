//! The OpenSCAD executable that renders are run with: where it is looked
//! for, and how its version is read from `openscad --version`.
use vstd::prelude::*;
use vstd::string::*;
use crate::error::{Error, Result};
use crate::render::params::trim_end_by;
use crate::text::{chars_of, is_white_space, white_space};

verus! {

broadcast use vstd::string::group_string_axioms;

/// OpenSCAD engine: the executable's path and its version.
pub struct OpenSCADEngine {
    openscad_path: String,
    version: String,
}

impl OpenSCADEngine {
    /// The executable's path.
    pub closed spec fn path_view(&self) -> Seq<char> {
        self.openscad_path@
    }

    /// The executable's version.
    pub closed spec fn version_view(&self) -> Seq<char> {
        self.version@
    }

    /// An engine for the executable found at `openscad_path`, whose version
    /// was read as `version`.
    pub fn from_parts(openscad_path: String, version: String) -> (e: Self)
        ensures
            e.path_view() == openscad_path@,
            e.version_view() == version@,
    {
        OpenSCADEngine { openscad_path, version }
    }

    /// Get the OpenSCAD version.
    pub fn version(&self) -> (r: &str)
        ensures
            r@ == self.version_view(),
    {
        self.version.as_str()
    }

    /// Get the OpenSCAD executable path.
    pub fn path(&self) -> (r: &str)
        ensures
            r@ == self.path_view(),
    {
        self.openscad_path.as_str()
    }
}

/// The places where OpenSCAD is commonly installed, in the order they are tried.
pub open spec fn common_locations() -> Seq<Seq<char>> {
    seq![
        "/usr/bin/openscad"@,
        "/usr/local/bin/openscad"@,
        "/opt/openscad/openscad"@,
        "/Applications/OpenSCAD.app/Contents/MacOS/OpenSCAD"@,
    ]
}

/// The paths to try for the OpenSCAD executable, in order: the value of
/// `OPENSCAD_PATH` when it is set, then the common locations.
pub fn openscad_candidates(env_path: Option<String>) -> (r: Vec<String>)
    ensures
        r.deep_view() == match env_path {
            Some(p) => seq![p@] + common_locations(),
            None => common_locations(),
        },
{
    let mut r: Vec<String> = Vec::new();
    match env_path {
        Some(p) => r.push(p),
        None => {},
    }
    let ghost first = r.deep_view();
    r.push(String::from_str("/usr/bin/openscad"));
    r.push(String::from_str("/usr/local/bin/openscad"));
    r.push(String::from_str("/opt/openscad/openscad"));
    r.push(String::from_str("/Applications/OpenSCAD.app/Contents/MacOS/OpenSCAD"));
    assert(r.deep_view() =~= first + common_locations());
    r
}

/// The message when OpenSCAD is found nowhere.
pub open spec fn not_found_message() -> Seq<char> {
    "openscad not found in PATH or common locations"@
}

/// Choose the OpenSCAD executable: the first candidate that exists, else
/// what a search of `PATH` found, else an error.
pub fn pick_openscad(candidates: &Vec<(String, bool)>, on_path: Option<String>) -> (r: Result<String>)
    ensures
        (exists|i: int| 0 <= i < candidates@.len() && candidates@[i].1) ==> {
            let i = choose|i: int|
                0 <= i < candidates@.len() && candidates@[i].1 && forall|j: int|
                    0 <= j < i ==> !candidates@[j].1;
            r matches Ok(p) && p@ == candidates@[i].0@
        },
        (forall|i: int| 0 <= i < candidates@.len() ==> !candidates@[i].1) ==> match on_path {
            Some(p) => r matches Ok(q) && q@ == p@,
            None => r matches Err(Error::OpenSCADNotFound(m)) && m@ == not_found_message(),
        },
{
    let n = candidates.len();
    for i in 0..n
        invariant
            n == candidates.len(),
            forall|j: int| 0 <= j < i ==> !candidates@[j].1,
    {
        if candidates[i].1 {
            let ghost k = choose|k: int|
                0 <= k < candidates@.len() && candidates@[k].1 && forall|j: int|
                    0 <= j < k ==> !candidates@[j].1;
            assert(k == i) by {
                if k < i {
                } else if k > i {
                    assert(!candidates@[i as int].1);
                }
            }
            return Ok(candidates[i].0.clone());
        }
    }
    match on_path {
        Some(p) => Ok(p),
        None => Err(
            Error::OpenSCADNotFound(String::from_str("openscad not found in PATH or common locations")),
        ),
    }
}

/// The last white-space separated word of `s`, or `unknown` when there is none.
pub open spec fn last_word(s: Seq<char>) -> Seq<char> {
    let t = trim_end_by(s, |c: char| is_white_space(c));
    let head = trim_end_by(t, |c: char| !is_white_space(c));
    if t.len() == 0 {
        "unknown"@
    } else {
        t.subrange(head.len() as int, t.len() as int)
    }
}

/// Read the version from the output of `openscad --version`: its last word.
pub fn version_from_output(stdout: &str) -> (r: String)
    ensures
        r@ == last_word(stdout@),
{
    let v = chars_of(stdout);
    assert(v@.subrange(0, v.len() as int) =~= v@);
    let mut e = v.len();
    while e > 0 && white_space(v[e - 1])
        invariant
            e <= v.len(),
            trim_end_by(v@, |c: char| is_white_space(c)) == trim_end_by(v@.subrange(0, e as int), |c: char| is_white_space(c)),
        decreases e,
    {
        assert(v@.subrange(0, e as int).drop_last() =~= v@.subrange(0, e - 1));
        e = e - 1;
    }
    assert(v@.subrange(0, v.len() as int) =~= v@);
    let ghost t = v@.subrange(0, e as int);
    assert(trim_end_by(v@, |c: char| is_white_space(c)) == t);
    if e == 0 {
        return String::from_str("unknown");
    }
    let mut b = e;
    while b > 0 && !white_space(v[b - 1])
        invariant
            b <= e <= v.len(),
            t == v@.subrange(0, e as int),
            trim_end_by(t, |c: char| !is_white_space(c)) == trim_end_by(v@.subrange(0, b as int), |c: char| !is_white_space(c)),
        decreases b,
    {
        assert(v@.subrange(0, b as int).drop_last() =~= v@.subrange(0, b - 1));
        b = b - 1;
    }
    assert(trim_end_by(t, |c: char| !is_white_space(c)) == v@.subrange(0, b as int));
    assert(t.subrange(b as int, e as int) =~= v@.subrange(b as int, e as int));
    String::from_str(stdout.substring_char(b, e))
}

} // verus!
