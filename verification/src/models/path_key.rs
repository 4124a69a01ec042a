//! Paths compared by their components, as `std::path::Path` compares them
//! on Unix: repeated and trailing `/` and `.` parts after the start do not
//! count.
use vstd::prelude::*;
use vstd::string::*;
use crate::text::chars_of;

verus! {

broadcast use vstd::string::group_string_axioms;

/// A part between slashes that counts as a component: not empty, not `.`.
pub open spec fn kept_part(p: Seq<char>) -> Seq<Seq<char>> {
    if p.len() == 0 || p == seq!['.'] {
        seq![]
    } else {
        seq![p]
    }
}

/// The components of `s` from position `j` on, `cur` being the part read
/// so far since the last `/`: the parts between slashes, without empty
/// parts and `.`.
pub open spec fn parts_from(s: Seq<char>, j: int, cur: Seq<char>) -> Seq<Seq<char>>
    decreases s.len() - j,
{
    if j >= s.len() {
        kept_part(cur)
    } else if s[j] == '/' {
        kept_part(cur) + parts_from(s, j + 1, seq![])
    } else {
        parts_from(s, j + 1, cur.push(s[j]))
    }
}

/// The parts of `s` that are normal components (or `..`).
pub open spec fn parts(s: Seq<char>) -> Seq<Seq<char>> {
    parts_from(s, 0, seq![])
}

/// The parts joined by single slashes.
pub open spec fn join_parts(ps: Seq<Seq<char>>) -> Seq<char>
    decreases ps.len(),
{
    if ps.len() == 0 {
        seq![]
    } else if ps.len() == 1 {
        ps[0]
    } else {
        join_parts(ps.drop_last()) + seq!['/'] + ps.last()
    }
}

/// The path starts with the current directory: it is `.` or starts `./`.
pub open spec fn starts_current(s: Seq<char>) -> bool {
    s.len() >= 1 && s[0] == '.' && (s.len() == 1 || s[1] == '/')
}

/// The text of the components of `s`: a root `/` or a leading `.` as the
/// path has it, then the other components joined by single slashes.  Two
/// paths have the same components exactly when they have the same key.
pub open spec fn path_key(s: Seq<char>) -> Seq<char> {
    let body = join_parts(parts(s));
    if s.len() > 0 && s[0] == '/' {
        seq!['/'] + body
    } else if starts_current(s) {
        if parts(s).len() == 0 {
            seq!['.']
        } else {
            seq!['.', '/'] + body
        }
    } else {
        body
    }
}

/// The windows of `v` that hold the components other than a root or a
/// leading `.`, in order.
fn path_parts(v: &Vec<char>) -> (r: Vec<(usize, usize)>)
    ensures
        forall|i: int| 0 <= i < r.len() ==> #[trigger] r@[i].0 <= r@[i].1 <= v.len(),
        r@.map_values(|w: (usize, usize)| v@.subrange(w.0 as int, w.1 as int)) == parts(v@),
{
    let ghost sub = |w: (usize, usize)| v@.subrange(w.0 as int, w.1 as int);
    let mut out: Vec<(usize, usize)> = Vec::new();
    let mut st: usize = 0;
    let mut j: usize = 0;
    assert(v@.subrange(0, 0) =~= Seq::<char>::empty());
    assert(out@.map_values(sub) =~= Seq::<Seq<char>>::empty());
    assert(Seq::<Seq<char>>::empty() + parts_from(v@, 0, seq![]) =~= parts(v@));
    while j < v.len()
        invariant
            st <= j <= v.len(),
            sub == (|w: (usize, usize)| v@.subrange(w.0 as int, w.1 as int)),
            forall|i: int| 0 <= i < out.len() ==> #[trigger] out@[i].0 <= out@[i].1 <= v.len(),
            out@.map_values(sub) + parts_from(v@, j as int, v@.subrange(st as int, j as int))
                == parts(v@),
        decreases v.len() - j,
    {
        let ghost cur = v@.subrange(st as int, j as int);
        if v[j] == '/' {
            let ghost before = out@.map_values(sub);
            if j - st > 0 && !(j - st == 1 && v[st] == '.') {
                assert(cur != seq!['.']) by {
                    if cur.len() == 1 {
                        assert(cur[0] == v@[st as int]);
                    }
                }
                out.push((st, j));
                assert(out@.map_values(sub) =~= before + kept_part(cur));
            } else {
                assert(kept_part(cur) =~= Seq::<Seq<char>>::empty()) by {
                    if cur.len() == 1 {
                        assert(cur =~= seq!['.']);
                    }
                }
                assert(out@.map_values(sub) =~= before + kept_part(cur));
            }
            assert(v@.subrange(j + 1, j + 1) =~= Seq::<char>::empty());
            st = j + 1;
        } else {
            assert(v@.subrange(st as int, j + 1) =~= cur.push(v@[j as int]));
        }
        j = j + 1;
    }
    let ghost cur = v@.subrange(st as int, j as int);
    let ghost before = out@.map_values(sub);
    if j - st > 0 && !(j - st == 1 && v[st] == '.') {
        assert(cur != seq!['.']) by {
            if cur.len() == 1 {
                assert(cur[0] == v@[st as int]);
            }
        }
        let ghost old_out = out@;
        out.push((st, j));
        assert(out@.map_values(sub) =~= before + kept_part(cur));
        assert forall|i: int| 0 <= i < out.len() implies #[trigger] out@[i].0 <= out@[i].1 <= v.len() by {
            if i < old_out.len() {
                assert(out@[i] == old_out[i]);
            }
        }
    } else {
        assert(kept_part(cur) =~= Seq::<Seq<char>>::empty()) by {
            if cur.len() == 1 {
                assert(cur =~= seq!['.']);
            }
        }
        assert(out@.map_values(sub) =~= before + kept_part(cur));
    }
    out
}

/// The key of a path: the text of its components.
pub fn path_key_of(path: &str) -> (r: String)
    ensures
        r@ == path_key(path@),
{
    proof {
        reveal_strlit("/");
        reveal_strlit(".");
        reveal_strlit("./");
    }
    let v = chars_of(path);
    let ps = path_parts(&v);
    let ghost pv = parts(v@);
    let mut body = String::new();
    for i in 0..ps.len()
        invariant
            v@ == path@,
            forall|k: int| 0 <= k < ps.len() ==> #[trigger] ps@[k].0 <= ps@[k].1 <= v.len(),
            ps@.map_values(|w: (usize, usize)| v@.subrange(w.0 as int, w.1 as int)) == pv,
            body@ == join_parts(pv.take(i as int)),
    {
        assert(pv.take(i + 1).drop_last() =~= pv.take(i as int));
        assert(pv.take(i + 1).last() == pv[i as int]);
        assert(pv[i as int] == v@.subrange(ps@[i as int].0 as int, ps@[i as int].1 as int));
        let ghost before = body@;
        if i > 0 {
            proof {
                reveal_strlit("/");
            }
            body.append("/");
        }
        let (a, b) = ps[i];
        let piece = path.substring_char(a, b);
        assert(piece@ == pv[i as int]);
        body.append(piece);
        if i == 0 {
            assert(body@ =~= join_parts(pv.take(1)));
        } else {
            assert(body@ =~= before + seq!['/'] + pv[i as int]);
            assert(body@ =~= join_parts(pv.take(i + 1)));
        }
    }
    assert(pv.take(ps.len() as int) =~= pv);
    assert(ps.len() == pv.len());
    let mut key = if v.len() > 0 && v[0] == '/' {
        String::from_str("/")
    } else if v.len() >= 1 && v[0] == '.' && (v.len() == 1 || v[1] == '/') {
        if ps.len() > 0 {
            String::from_str("./")
        } else {
            String::from_str(".")
        }
    } else {
        String::new()
    };
    key.append(body.as_str());
    proof {
        if !(v@.len() > 0 && v@[0] == '/') && starts_current(v@) && pv.len() == 0 {
            assert(body@ =~= Seq::<char>::empty());
        }
        assert(key@ =~= path_key(v@));
    }
    key
}

} // verus!
