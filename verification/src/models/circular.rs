//! The search for circular `include` chains that the `detect_circular` tool
//! performs.
//!
//! The search walks the files that a file includes, depth first and in the
//! order of its lines.  Reading a file is outside work, so the search is a
//! state machine: each step either asks for the content of one file or
//! reports that it is done.  A file that is met again is not entered again;
//! where it is still on the path of files being walked, the part of the path
//! from its first occurrence on is recorded as a cycle, once.
use vstd::prelude::*;
use vstd::string::*;
use crate::mcp::dependencies::{dependencies_of, keyword_text, line_dependencies, DependencyKeyword};

verus! {

broadcast use vstd::string::group_string_axioms;

/// The state of a search, as values.
pub struct SearchModel {
    /// Every file that the search has entered.
    pub visited: Seq<Seq<char>>,
    /// The path of files being walked; it starts with the first file twice.
    pub path: Seq<Seq<char>>,
    /// The cycles found so far, in the order in which they were found.
    pub cycles: Seq<Seq<Seq<char>>>,
    /// For each file being walked whose content has come, what it includes.
    pub targets: Seq<Seq<Seq<char>>>,
    /// For each of those files, how many of its targets have been taken.
    pub next: Seq<int>,
}

/// First position at or after `i` where `t` stands in `s`.
pub open spec fn index_from(s: Seq<Seq<char>>, t: Seq<char>, i: int) -> Option<int>
    decreases s.len() - i,
{
    if i < 0 || i >= s.len() {
        None
    } else if s[i] == t {
        Some(i)
    } else {
        index_from(s, t, i + 1)
    }
}

proof fn lemma_index_from(s: Seq<Seq<char>>, t: Seq<char>, i: int)
    requires
        0 <= i,
    ensures
        index_from(s, t, i) matches Some(p) ==> i <= p < s.len() && s[p] == t,
    decreases s.len() - i,
{
    if i < s.len() && s[i] != t {
        lemma_index_from(s, t, i + 1);
    }
}

/// The state after meeting `t` again: where `t` is on the path, the path
/// from its first occurrence on is a cycle, recorded unless it already was.
pub open spec fn record_cycle(m: SearchModel, t: Seq<char>) -> SearchModel {
    match index_from(m.path, t, 0) {
        Some(pos) => {
            let c = m.path.skip(pos);
            if m.cycles.contains(c) {
                m
            } else {
                SearchModel {
                    visited: m.visited,
                    path: m.path,
                    cycles: m.cycles.push(c),
                    targets: m.targets,
                    next: m.next,
                }
            }
        },
        None => m,
    }
}

/// Law: meeting a file that stands on the path of files being walked
/// records the cycle from its first occurrence on: afterwards that part of
/// the path is among the cycles, whatever cycles were found before; every
/// cycle found before is kept, no other cycle is added, and the walk itself
/// (path, entered files, pending targets) is unchanged.  Meeting a file that
/// is not on the path changes nothing.
pub proof fn law_met_cycle_recorded(m: SearchModel, t: Seq<char>)
    ensures
        record_cycle(m, t).visited == m.visited,
        record_cycle(m, t).path == m.path,
        record_cycle(m, t).targets == m.targets,
        record_cycle(m, t).next == m.next,
        forall|c: Seq<Seq<char>>| m.cycles.contains(c) ==> #[trigger] record_cycle(m, t).cycles.contains(c),
        !m.path.contains(t) ==> record_cycle(m, t) == m,
        forall|pos: int|
            0 <= pos < m.path.len() && m.path[pos] == t && (forall|j: int| 0 <= j < pos ==> m.path[j] != t)
                ==> {
                &&& #[trigger] record_cycle(m, t).cycles.contains(m.path.skip(pos))
                &&& forall|c: Seq<Seq<char>>| #[trigger] record_cycle(m, t).cycles.contains(c)
                    ==> m.cycles.contains(c) || c == m.path.skip(pos)
            },
{
    lemma_index_from(m.path, t, 0);
    lemma_index_first(m.path, t, 0);
    let r = record_cycle(m, t);
    match index_from(m.path, t, 0) {
        Some(p) => {
            let c = m.path.skip(p);
            if !m.cycles.contains(c) {
                assert(r.cycles == m.cycles.push(c));
                assert(r.cycles[m.cycles.len() as int] == c);
                assert forall|x: Seq<Seq<char>>| m.cycles.contains(x) implies #[trigger] r.cycles.contains(x) by {
                    let i = choose|i: int| 0 <= i < m.cycles.len() && m.cycles[i] == x;
                    assert(r.cycles[i] == x);
                }
                assert forall|x: Seq<Seq<char>>| #[trigger] r.cycles.contains(x) implies m.cycles.contains(x) || x == c by {
                    let i = choose|i: int| 0 <= i < r.cycles.len() && r.cycles[i] == x;
                    if i < m.cycles.len() {
                        assert(m.cycles[i] == x);
                    }
                }
            }
        },
        None => {
            assert(!m.path.contains(t));
        },
    }
}

/// Law: the search never forgets a cycle: every cycle recorded before a
/// run of steps is still recorded after it.
pub proof fn law_search_keeps_cycles(m: SearchModel)
    ensures
        forall|c: Seq<Seq<char>>| m.cycles.contains(c) ==> #[trigger] advance(m).0.cycles.contains(c),
    decreases m.targets.len(), top_remaining(m),
{
    if m.targets.len() == 0 || m.next.len() != m.targets.len() {
    } else {
        let k = m.targets.len() - 1;
        if 0 <= m.next[k] < m.targets[k].len() {
            let t = m.targets[k][m.next[k]];
            let m1 = SearchModel {
                visited: m.visited,
                path: m.path,
                cycles: m.cycles,
                targets: m.targets,
                next: m.next.update(k, m.next[k] + 1),
            };
            if m.visited.contains(t) {
                let m2 = record_cycle(m1, t);
                law_met_cycle_recorded(m1, t);
                assert(top_remaining(m2) < top_remaining(m));
                law_search_keeps_cycles(m2);
                assert(advance(m) == advance(m2));
                assert forall|c: Seq<Seq<char>>| m.cycles.contains(c) implies #[trigger] advance(m).0.cycles.contains(c) by {
                    assert(m1.cycles.contains(c));
                    assert(m2.cycles.contains(c));
                }
            }
        } else {
            let m3 = SearchModel {
                visited: m.visited,
                path: m.path.drop_last(),
                cycles: m.cycles,
                targets: m.targets.drop_last(),
                next: m.next.drop_last(),
            };
            law_search_keeps_cycles(m3);
            assert(advance(m) == advance(m3));
            assert forall|c: Seq<Seq<char>>| m.cycles.contains(c) implies #[trigger] advance(m).0.cycles.contains(c) by {
                assert(m3.cycles.contains(c));
            }
        }
    }
}

/// `index_from` finds the first occurrence at or after `i`.
proof fn lemma_index_first(s: Seq<Seq<char>>, t: Seq<char>, i: int)
    requires
        0 <= i,
    ensures
        index_from(s, t, i) matches Some(p) ==> forall|j: int| i <= j < p ==> s[j] != t,
        index_from(s, t, i) is None ==> forall|j: int| i <= j < s.len() ==> s[j] != t,
    decreases s.len() - i,
{
    if i < s.len() && s[i] != t {
        lemma_index_first(s, t, i + 1);
    }
}

/// How many targets of the innermost file are still to be taken.
pub open spec fn top_remaining(m: SearchModel) -> nat {
    if m.targets.len() > 0 && m.next.len() == m.targets.len() {
        let k = m.targets.len() - 1;
        if m.next[k] < m.targets[k].len() {
            (m.targets[k].len() - m.next[k]) as nat
        } else {
            0
        }
    } else {
        0
    }
}

/// The search from state `m` on until it needs a file's content (the state
/// then and the file's name) or has walked everything (the final state and
/// `None`).
pub open spec fn advance(m: SearchModel) -> (SearchModel, Option<Seq<char>>)
    decreases m.targets.len(), top_remaining(m),
{
    if m.targets.len() == 0 || m.next.len() != m.targets.len() {
        (m, None)
    } else {
        let k = m.targets.len() - 1;
        if 0 <= m.next[k] < m.targets[k].len() {
            let t = m.targets[k][m.next[k]];
            let m1 = SearchModel {
                visited: m.visited,
                path: m.path,
                cycles: m.cycles,
                targets: m.targets,
                next: m.next.update(k, m.next[k] + 1),
            };
            if m.visited.contains(t) {
                advance(record_cycle(m1, t))
            } else {
                (
                    SearchModel {
                        visited: m.visited.push(t),
                        path: m.path.push(t),
                        cycles: m.cycles,
                        targets: m.targets,
                        next: m1.next,
                    },
                    Some(t),
                )
            }
        } else {
            advance(
                SearchModel {
                    visited: m.visited,
                    path: m.path.drop_last(),
                    cycles: m.cycles,
                    targets: m.targets.drop_last(),
                    next: m.next.drop_last(),
                },
            )
        }
    }
}

/// The state in which the search starts from `file`, waiting for its content.
pub open spec fn initial_model(file: Seq<char>) -> SearchModel {
    SearchModel {
        visited: seq![file],
        path: seq![file, file],
        cycles: seq![],
        targets: seq![],
        next: seq![],
    }
}

/// The state once the content of the awaited file has come: `None` where
/// the file could not be read.
pub open spec fn with_content(m: SearchModel, content: Option<Seq<char>>) -> SearchModel {
    let t = match content {
        Some(c) => dependencies_of(c, keyword_text(DependencyKeyword::Include)),
        None => seq![],
    };
    SearchModel {
        visited: m.visited,
        path: m.path,
        cycles: m.cycles,
        targets: m.targets.push(t),
        next: m.next.push(0),
    }
}

/// No cycle is recorded twice and no file is entered twice.
pub open spec fn without_repeats(m: SearchModel) -> bool {
    &&& forall|i: int, j: int|
        0 <= i < m.cycles.len() && 0 <= j < m.cycles.len() && i != j ==> #[trigger] m.cycles[i]
            != #[trigger] m.cycles[j]
    &&& forall|i: int, j: int|
        0 <= i < m.visited.len() && 0 <= j < m.visited.len() && i != j ==> #[trigger] m.visited[i]
            != #[trigger] m.visited[j]
}

/// Law: a search never enters a file twice and never reports the same cycle
/// twice: every step keeps both lists free of repeats.
pub proof fn law_search_without_repeats(file: Seq<char>, m: SearchModel, content: Option<Seq<char>>)
    requires
        without_repeats(m),
    ensures
        without_repeats(initial_model(file)),
        without_repeats(with_content(m, content)),
        without_repeats(advance(m).0),
    decreases m.targets.len(), top_remaining(m),
{
    if m.targets.len() == 0 || m.next.len() != m.targets.len() {
    } else {
        let k = m.targets.len() - 1;
        if 0 <= m.next[k] < m.targets[k].len() {
            let t = m.targets[k][m.next[k]];
            let m1 = SearchModel {
                visited: m.visited,
                path: m.path,
                cycles: m.cycles,
                targets: m.targets,
                next: m.next.update(k, m.next[k] + 1),
            };
            if m.visited.contains(t) {
                let m2 = record_cycle(m1, t);
                assert(without_repeats(m2)) by {
                    match index_from(m1.path, t, 0) {
                        Some(pos) => {
                            let c = m1.path.skip(pos);
                            if !m1.cycles.contains(c) {
                                assert forall|i: int, j: int|
                                    0 <= i < m2.cycles.len() && 0 <= j < m2.cycles.len() && i != j
                                        implies #[trigger] m2.cycles[i] != #[trigger] m2.cycles[j] by {
                                    if i == m1.cycles.len() {
                                        assert(m1.cycles[j] == m2.cycles[j]);
                                    } else if j == m1.cycles.len() {
                                        assert(m1.cycles[i] == m2.cycles[i]);
                                    }
                                }
                            }
                        },
                        None => {},
                    }
                }
                law_search_without_repeats(file, m2, content);
            } else {
                let v = m.visited.push(t);
                assert forall|i: int, j: int|
                    0 <= i < v.len() && 0 <= j < v.len() && i != j implies #[trigger] v[i] != #[trigger] v[j] by {
                    if i == m.visited.len() {
                        assert(m.visited[j] == v[j]);
                    } else if j == m.visited.len() {
                        assert(m.visited[i] == v[i]);
                    }
                }
            }
        } else {
            let m2 = SearchModel {
                visited: m.visited,
                path: m.path.drop_last(),
                cycles: m.cycles,
                targets: m.targets.drop_last(),
                next: m.next.drop_last(),
            };
            law_search_without_repeats(file, m2, content);
        }
    }
}

/// The files that `a` includes, where the content of each readable file is
/// given by `fs` (`None` for a file that cannot be read).
pub open spec fn included_by(fs: spec_fn(Seq<char>) -> Option<Seq<char>>, a: Seq<char>) -> Seq<Seq<char>> {
    match fs(a) {
        Some(c) => dependencies_of(c, keyword_text(DependencyKeyword::Include)),
        None => seq![],
    }
}

/// `a` includes `b`.
pub open spec fn includes(fs: spec_fn(Seq<char>) -> Option<Seq<char>>, a: Seq<char>, b: Seq<char>) -> bool {
    included_by(fs, a).contains(b)
}

/// `w` is a closed walk of includes: each file includes the next, and the
/// last includes the first.
pub open spec fn closed_walk(fs: spec_fn(Seq<char>) -> Option<Seq<char>>, w: Seq<Seq<char>>) -> bool {
    &&& w.len() >= 1
    &&& forall|i: int| 0 <= i < w.len() - 1 ==> #[trigger] includes(fs, w[i], w[i + 1])
    &&& includes(fs, w.last(), w[0])
}

/// A reported cycle is a closed walk of includes, or one once its first
/// file is dropped (where the cycle runs through the file the search
/// started from, which the path holds twice).
pub open spec fn real_cycle(fs: spec_fn(Seq<char>) -> Option<Seq<char>>, c: Seq<Seq<char>>) -> bool {
    ||| closed_walk(fs, c)
    ||| c.len() >= 2 && c[0] == c[1] && closed_walk(fs, c.drop_first())
}

/// The state of a search agrees with the file system `fs`: the targets of
/// each file being walked are what it includes, each file on the path
/// after the first two was entered from the file before it, and every
/// cycle found so far is real.
pub open spec fn follows(fs: spec_fn(Seq<char>) -> Option<Seq<char>>, m: SearchModel, awaiting: bool) -> bool {
    &&& shape_ok(m, awaiting)
    &&& frames_agree(fs, m)
    &&& path_entered(m)
    &&& cycles_real(fs, m)
}

/// The lists of the state have the lengths that the nesting of the walk
/// gives, and the path starts with the first file twice.
pub open spec fn shape_ok(m: SearchModel, awaiting: bool) -> bool {
    &&& m.next.len() == m.targets.len()
    &&& awaiting ==> m.path.len() == m.targets.len() + 2
    &&& !awaiting ==> m.path.len() == m.targets.len() + 1
    &&& m.path.len() >= 2 ==> m.path[0] == m.path[1]
    &&& forall|k: int| 0 <= k < m.next.len() ==> 0 <= #[trigger] m.next[k] <= m.targets[k].len()
}

/// The targets of each file being walked are what it includes.
pub open spec fn frames_agree(fs: spec_fn(Seq<char>) -> Option<Seq<char>>, m: SearchModel) -> bool {
    forall|k: int| 0 <= k < m.targets.len() ==> #[trigger] m.targets[k] == included_by(fs, m.path[k + 1])
}

/// Each file on the path after the first two is the target last taken
/// from the file before it.
pub open spec fn path_entered(m: SearchModel) -> bool {
    forall|j: int| 1 <= j && j + 1 < m.path.len() ==> #[trigger] entered_at(m, j)
}

/// The file at position `j + 1` of the path is the target last taken from
/// the file at position `j`.
pub open spec fn entered_at(m: SearchModel, j: int) -> bool {
    1 <= m.next[j - 1] && m.path[j + 1] == m.targets[j - 1][m.next[j - 1] - 1]
}

/// Every cycle found so far is real.
pub open spec fn cycles_real(fs: spec_fn(Seq<char>) -> Option<Seq<char>>, m: SearchModel) -> bool {
    forall|i: int| 0 <= i < m.cycles.len() ==> real_cycle(fs, #[trigger] m.cycles[i])
}

proof fn lemma_path_edges(fs: spec_fn(Seq<char>) -> Option<Seq<char>>, m: SearchModel, awaiting: bool, j: int)
    requires
        follows(fs, m, awaiting),
        1 <= j,
        j + 1 < m.path.len(),
    ensures
        includes(fs, m.path[j], m.path[j + 1]),
{
    assert(entered_at(m, j));
    assert(m.targets[j - 1] == included_by(fs, m.path[j]));
    assert(included_by(fs, m.path[j])[m.next[j - 1] - 1] == m.path[j + 1]);
}

/// The state once the innermost file's next target is taken.
pub open spec fn take_target(m: SearchModel) -> SearchModel {
    let k = m.targets.len() - 1;
    SearchModel {
        visited: m.visited,
        path: m.path,
        cycles: m.cycles,
        targets: m.targets,
        next: m.next.update(k, m.next[k] + 1),
    }
}

proof fn lemma_take_follows(fs: spec_fn(Seq<char>) -> Option<Seq<char>>, m: SearchModel)
    requires
        follows(fs, m, false),
        m.targets.len() > 0,
        0 <= m.next[m.targets.len() - 1] < m.targets[m.targets.len() - 1].len(),
    ensures
        follows(fs, take_target(m), false),
        includes(fs, m.path.last(), m.targets[m.targets.len() - 1][m.next[m.targets.len() - 1]]),
{
    let k = m.targets.len() - 1;
    let t = m.targets[k][m.next[k]];
    let m1 = take_target(m);
    assert(m.path.last() == m.path[k + 1]);
    assert(m.targets[k] == included_by(fs, m.path[k + 1]));
    assert(included_by(fs, m.path[k + 1])[m.next[k]] == t);
    assert forall|j: int| 1 <= j && j + 1 < m1.path.len() implies #[trigger] entered_at(m1, j) by {
        assert(j - 1 < k);
        assert(m1.next[j - 1] == m.next[j - 1]);
        assert(entered_at(m, j));
    }
    assert forall|q: int| 0 <= q < m1.next.len() implies 0 <= #[trigger] m1.next[q] <= m1.targets[q].len() by {
        if q != k {
            assert(m1.next[q] == m.next[q]);
        }
    }
}

proof fn lemma_new_cycle_real(fs: spec_fn(Seq<char>) -> Option<Seq<char>>, m: SearchModel, t: Seq<char>, pos: int)
    requires
        follows(fs, m, false),
        includes(fs, m.path.last(), t),
        0 <= pos < m.path.len(),
        m.path[pos] == t,
    ensures
        real_cycle(fs, m.path.skip(pos)),
{
    let c = m.path.skip(pos);
    if pos >= 1 {
        assert forall|i: int| 0 <= i < c.len() - 1 implies #[trigger] includes(fs, c[i], c[i + 1]) by {
            lemma_path_edges(fs, m, false, pos + i);
        }
        assert(c.last() == m.path.last());
        assert(closed_walk(fs, c));
    } else {
        assert(c =~= m.path);
        let d = c.drop_first();
        assert forall|i: int| 0 <= i < d.len() - 1 implies #[trigger] includes(fs, d[i], d[i + 1]) by {
            lemma_path_edges(fs, m, false, 1 + i);
        }
        if m.path.len() >= 2 {
            assert(d.last() == m.path.last());
            assert(d[0] == m.path[1]);
            assert(closed_walk(fs, d));
        } else {
            assert(closed_walk(fs, c));
        }
    }
}

proof fn lemma_record_follows(fs: spec_fn(Seq<char>) -> Option<Seq<char>>, m: SearchModel, t: Seq<char>)
    requires
        follows(fs, m, false),
        includes(fs, m.path.last(), t),
    ensures
        follows(fs, record_cycle(m, t), false),
{
    let m2 = record_cycle(m, t);
    match index_from(m.path, t, 0) {
        Some(pos) => {
            lemma_index_from(m.path, t, 0);
            let c = m.path.skip(pos);
            if !m.cycles.contains(c) {
                lemma_new_cycle_real(fs, m, t, pos);
                assert forall|i: int| 0 <= i < m2.cycles.len() implies real_cycle(fs, #[trigger] m2.cycles[i]) by {
                    if i < m.cycles.len() {
                        assert(m2.cycles[i] == m.cycles[i]);
                    }
                }
                assert(m2.path == m.path && m2.targets == m.targets && m2.next == m.next);
                assert forall|j: int| 1 <= j && j + 1 < m2.path.len() implies #[trigger] entered_at(m2, j) by {
                    assert(entered_at(m, j));
                }
                assert forall|q: int| 0 <= q < m2.targets.len() implies #[trigger] m2.targets[q] == included_by(fs, m2.path[q + 1]) by {
                    assert(m.targets[q] == included_by(fs, m.path[q + 1]));
                }
                assert forall|q: int| 0 <= q < m2.next.len() implies 0 <= #[trigger] m2.next[q] <= m2.targets[q].len() by {
                    assert(0 <= m.next[q] <= m.targets[q].len());
                }
            }
        },
        None => {},
    }
}

proof fn lemma_enter_follows(fs: spec_fn(Seq<char>) -> Option<Seq<char>>, m: SearchModel, t: Seq<char>)
    requires
        follows(fs, m, false),
        m.targets.len() > 0,
        m.next[m.targets.len() - 1] >= 1,
        t == m.targets[m.targets.len() - 1][m.next[m.targets.len() - 1] - 1],
    ensures
        follows(
            fs,
            SearchModel {
                visited: m.visited.push(t),
                path: m.path.push(t),
                cycles: m.cycles,
                targets: m.targets,
                next: m.next,
            },
            true,
        ),
{
    let k = m.targets.len() - 1;
    let m3 = SearchModel {
        visited: m.visited.push(t),
        path: m.path.push(t),
        cycles: m.cycles,
        targets: m.targets,
        next: m.next,
    };
    assert forall|q: int| 0 <= q < m3.targets.len() implies #[trigger] m3.targets[q] == included_by(fs, m3.path[q + 1]) by {
        assert(m3.path[q + 1] == m.path[q + 1]);
    }
    assert forall|j: int| 1 <= j && j + 1 < m3.path.len() implies #[trigger] entered_at(m3, j) by {
        if j + 1 < m.path.len() {
            assert(m3.path[j + 1] == m.path[j + 1]);
            assert(entered_at(m, j));
        } else {
            assert(j - 1 == k);
        }
    }
    if m.path.len() >= 2 {
        assert(m3.path[0] == m.path[0] && m3.path[1] == m.path[1]);
    }
}

/// The state once the innermost file is walked to its end.
pub open spec fn leave_file(m: SearchModel) -> SearchModel {
    SearchModel {
        visited: m.visited,
        path: m.path.drop_last(),
        cycles: m.cycles,
        targets: m.targets.drop_last(),
        next: m.next.drop_last(),
    }
}

proof fn lemma_leave_follows(fs: spec_fn(Seq<char>) -> Option<Seq<char>>, m: SearchModel)
    requires
        follows(fs, m, false),
        m.targets.len() > 0,
    ensures
        follows(fs, leave_file(m), false),
{
    let m2 = leave_file(m);
    assert forall|q: int| 0 <= q < m2.targets.len() implies #[trigger] m2.targets[q] == included_by(fs, m2.path[q + 1]) by {
        assert(m2.targets[q] == m.targets[q]);
        assert(m2.path[q + 1] == m.path[q + 1]);
    }
    assert forall|q: int| 0 <= q < m2.next.len() implies 0 <= #[trigger] m2.next[q] <= m2.targets[q].len() by {
        assert(m2.next[q] == m.next[q]);
        assert(m2.targets[q] == m.targets[q]);
    }
    assert forall|j: int| 1 <= j && j + 1 < m2.path.len() implies #[trigger] entered_at(m2, j) by {
        assert(m2.path[j + 1] == m.path[j + 1]);
        assert(entered_at(m, j));
        assert(m2.next[j - 1] == m.next[j - 1]);
        assert(m2.targets[j - 1] == m.targets[j - 1]);
    }
    if m2.path.len() >= 2 {
        assert(m2.path[0] == m.path[0] && m2.path[1] == m.path[1]);
    }
    assert forall|i: int| 0 <= i < m2.cycles.len() implies real_cycle(fs, #[trigger] m2.cycles[i]) by {
        assert(m2.cycles[i] == m.cycles[i]);
    }
}

proof fn lemma_advance_follows(fs: spec_fn(Seq<char>) -> Option<Seq<char>>, m: SearchModel)
    requires
        follows(fs, m, false),
    ensures
        follows(fs, advance(m).0, advance(m).1 is Some),
    decreases m.targets.len(), top_remaining(m),
{
    if m.targets.len() == 0 || m.next.len() != m.targets.len() {
    } else {
        let k = m.targets.len() - 1;
        if 0 <= m.next[k] < m.targets[k].len() {
            let t = m.targets[k][m.next[k]];
            let m1 = take_target(m);
            lemma_take_follows(fs, m);
            assert(m1.path.last() == m.path.last());
            if m.visited.contains(t) {
                lemma_record_follows(fs, m1, t);
                lemma_advance_follows(fs, record_cycle(m1, t));
            } else {
                assert(m1.targets[k][m1.next[k] - 1] == t);
                lemma_enter_follows(fs, m1, t);
            }
        } else {
            lemma_leave_follows(fs, m);
            assert(leave_file(m) == SearchModel {
                visited: m.visited,
                path: m.path.drop_last(),
                cycles: m.cycles,
                targets: m.targets.drop_last(),
                next: m.next.drop_last(),
            });
            lemma_advance_follows(fs, leave_file(m));
        }
    }
}

/// Law: every cycle that the search reports is a real circular include in
/// the files it read.  Where each file the search asks for is answered with
/// its content in `fs`, the search starts in agreement with `fs` and each
/// step keeps it so; and in agreement with `fs`, every reported cycle is a
/// closed walk of includes (after dropping its first file, where the cycle
/// runs through the file the search started from).
pub proof fn law_search_reports_real_cycles(
    fs: spec_fn(Seq<char>) -> Option<Seq<char>>,
    file: Seq<char>,
    m: SearchModel,
)
    ensures
        follows(fs, initial_model(file), true),
        follows(fs, m, true) ==> follows(fs, search_step(fs, m).0, search_step(fs, m).1 is Some),
        follows(fs, m, true) ==> forall|i: int| 0 <= i < m.cycles.len() ==> real_cycle(fs, #[trigger] m.cycles[i]),
{
    lemma_initial_follows(fs, file);
    if follows(fs, m, true) {
        lemma_content_follows(fs, m);
        lemma_advance_follows(fs, with_content(m, fs(m.path.last())));
    }
}

proof fn lemma_initial_follows(fs: spec_fn(Seq<char>) -> Option<Seq<char>>, file: Seq<char>)
    ensures
        follows(fs, initial_model(file), true),
{
    let m = initial_model(file);
    assert(m.path.len() == 2);
}

proof fn lemma_content_follows(fs: spec_fn(Seq<char>) -> Option<Seq<char>>, m: SearchModel)
    requires
        follows(fs, m, true),
    ensures
        follows(fs, with_content(m, fs(m.path.last())), false),
{
    let m1 = with_content(m, fs(m.path.last()));
    let k = m.targets.len() as int;
    assert(m.path.last() == m.path[k + 1]);
    assert(m1.targets[k] == included_by(fs, m.path[k + 1]));
    assert forall|q: int| 0 <= q < m1.targets.len() implies #[trigger] m1.targets[q] == included_by(fs, m1.path[q + 1]) by {
        if q < k {
            assert(m1.targets[q] == m.targets[q]);
        }
    }
    assert forall|q: int| 0 <= q < m1.next.len() implies 0 <= #[trigger] m1.next[q] <= m1.targets[q].len() by {
        if q < k {
            assert(m1.next[q] == m.next[q]);
            assert(m1.targets[q] == m.targets[q]);
        }
    }
    assert forall|j: int| 1 <= j && j + 1 < m1.path.len() implies #[trigger] entered_at(m1, j) by {
        assert(j - 1 < k);
        assert(m1.next[j - 1] == m.next[j - 1]);
        assert(m1.targets[j - 1] == m.targets[j - 1]);
        assert(entered_at(m, j));
    }
}

/// `x` is on the path of files being walked (the start file, which the
/// path holds twice, counted once).
pub open spec fn on_path(m: SearchModel, x: Seq<char>) -> bool {
    m.path.drop_first().contains(x)
}

/// `x` was entered and has been walked to its end.
pub open spec fn finished(m: SearchModel, x: Seq<char>) -> bool {
    m.visited.contains(x) && !on_path(m, x)
}

/// What a finished file includes is finished too.
pub open spec fn finished_closed(fs: spec_fn(Seq<char>) -> Option<Seq<char>>, m: SearchModel) -> bool {
    forall|b: Seq<char>, s: Seq<char>| finished(m, b) && #[trigger] includes(fs, b, s) ==> finished(m, s)
}

/// No closed walk of includes runs through finished files only.
pub open spec fn finished_acyclic(fs: spec_fn(Seq<char>) -> Option<Seq<char>>, m: SearchModel) -> bool {
    forall|w: Seq<Seq<char>>| #[trigger] closed_walk(fs, w) ==> exists|i: int| 0 <= i < w.len() && !finished(m, #[trigger] w[i])
}

/// Every target taken so far is finished, but for the last one taken from
/// a file whose child on the path it is.
pub open spec fn taken_finished(m: SearchModel) -> bool {
    forall|k: int, i: int|
        0 <= k < m.targets.len() && 0 <= i < m.next[k] ==> #[trigger] taken_ok(m, k, i)
}

/// Target `i` of file `k` of the walk is finished, or is the child of that
/// file on the path.
pub open spec fn taken_ok(m: SearchModel, k: int, i: int) -> bool {
    ||| finished(m, m.targets[k][i])
    ||| i == m.next[k] - 1 && k + 2 < m.path.len() && m.path[k + 2] == m.targets[k][i]
}

/// The search state of a depth-first walk from `file` that agrees with
/// `fs`: the path starts with `file`, holds entered files each once, and,
/// as long as no cycle has been found, the finished files are closed under
/// includes and hold no cycle.
pub open spec fn dfs_state(
    fs: spec_fn(Seq<char>) -> Option<Seq<char>>,
    file: Seq<char>,
    m: SearchModel,
    awaiting: bool,
) -> bool {
    &&& follows(fs, m, awaiting)
    &&& m.path.len() >= 1 && m.path[0] == file && m.visited.contains(file)
    &&& forall|j: int| 1 <= j < m.path.len() ==> m.visited.contains(#[trigger] m.path[j])
    &&& forall|a: int, b: int|
        1 <= a < m.path.len() && 1 <= b < m.path.len() && a != b ==> #[trigger] m.path[a] != #[trigger] m.path[b]
    &&& m.cycles.len() == 0 ==> {
        &&& finished_closed(fs, m)
        &&& finished_acyclic(fs, m)
        &&& taken_finished(m)
    }
}

/// `b` can be reached from `a` by following includes.
pub open spec fn reachable(fs: spec_fn(Seq<char>) -> Option<Seq<char>>, a: Seq<char>, b: Seq<char>) -> bool {
    exists|p: Seq<Seq<char>>|
        p.len() >= 1 && p[0] == a && p.last() == b && forall|i: int|
            0 <= i < p.len() - 1 ==> #[trigger] includes(fs, p[i], p[i + 1])
}

/// Some closed walk of includes can be reached from `file`.
pub open spec fn reachable_cycle(fs: spec_fn(Seq<char>) -> Option<Seq<char>>, file: Seq<char>) -> bool {
    exists|w: Seq<Seq<char>>| #[trigger] closed_walk(fs, w) && reachable(fs, file, w[0])
}

/// One round of the search when each file is answered with its content in
/// `fs`.
pub open spec fn search_step(fs: spec_fn(Seq<char>) -> Option<Seq<char>>, m: SearchModel) -> (SearchModel, Option<Seq<char>>) {
    advance(with_content(m, fs(m.path.last())))
}

proof fn lemma_on_path_drop_first(m: SearchModel, x: Seq<char>)
    requires
        m.path.len() >= 1,
    ensures
        on_path(m, x) <==> exists|j: int| 1 <= j < m.path.len() && m.path[j] == x,
{
    let d = m.path.drop_first();
    if on_path(m, x) {
        let i = choose|i: int| 0 <= i < d.len() && d[i] == x;
        assert(m.path[i + 1] == x);
    }
    if exists|j: int| 1 <= j < m.path.len() && m.path[j] == x {
        let j = choose|j: int| 1 <= j < m.path.len() && m.path[j] == x;
        assert(d[j - 1] == x);
    }
}

proof fn lemma_record_dfs(fs: spec_fn(Seq<char>) -> Option<Seq<char>>, file: Seq<char>, m: SearchModel)
    requires
        dfs_state(fs, file, m, false),
        m.targets.len() > 0,
        0 <= m.next[m.targets.len() - 1] < m.targets[m.targets.len() - 1].len(),
        m.visited.contains(m.targets[m.targets.len() - 1][m.next[m.targets.len() - 1]]),
    ensures
        dfs_state(
            fs,
            file,
            record_cycle(take_target(m), m.targets[m.targets.len() - 1][m.next[m.targets.len() - 1]]),
            false,
        ),
{
    let k = m.targets.len() - 1;
    let t = m.targets[k][m.next[k]];
    let m1 = take_target(m);
    let m2 = record_cycle(m1, t);
    lemma_take_follows(fs, m);
    assert(m1.path.last() == m.path.last());
    lemma_record_follows(fs, m1, t);
    assert(m2.path == m.path && m2.visited == m.visited && m2.targets == m.targets);
    assert(m2.next == m1.next);
    if m2.cycles.len() == 0 {
        assert(m.cycles.len() == 0);
        lemma_index_from(m1.path, t, 0);
        assert(index_from(m1.path, t, 0) is None);
        assert(!on_path(m, t)) by {
            lemma_on_path_drop_first(m, t);
            if on_path(m, t) {
                let j = choose|j: int| 1 <= j < m.path.len() && m.path[j] == t;
                lemma_index_from_finds(m.path, t, 0, j);
            }
        }
        assert forall|b: Seq<char>| finished(m2, b) == finished(m, b) by {}
        assert(finished_closed(fs, m2));
        assert forall|w: Seq<Seq<char>>| #[trigger] closed_walk(fs, w) implies exists|i: int|
            0 <= i < w.len() && !finished(m2, #[trigger] w[i]) by {
            let i = choose|i: int| 0 <= i < w.len() && !finished(m, #[trigger] w[i]);
            assert(!finished(m2, w[i]));
        }
        assert forall|q: int, i: int| 0 <= q < m2.targets.len() && 0 <= i < m2.next[q] implies #[trigger] taken_ok(m2, q, i) by {
            if q == k && i == m.next[k] {
                assert(finished(m2, t));
            } else {
                assert(taken_ok(m, q, i));
                if q == k {
                    assert(!(k + 2 < m.path.len()));
                }
            }
        }
    }
}

proof fn lemma_index_from_finds(s: Seq<Seq<char>>, t: Seq<char>, i: int, j: int)
    requires
        0 <= i <= j < s.len(),
        s[j] == t,
    ensures
        index_from(s, t, i) is Some,
    decreases j - i,
{
    if s[i] != t {
        lemma_index_from_finds(s, t, i + 1, j);
    }
}

proof fn lemma_enter_dfs(fs: spec_fn(Seq<char>) -> Option<Seq<char>>, file: Seq<char>, m: SearchModel)
    requires
        dfs_state(fs, file, m, false),
        m.targets.len() > 0,
        0 <= m.next[m.targets.len() - 1] < m.targets[m.targets.len() - 1].len(),
        !m.visited.contains(m.targets[m.targets.len() - 1][m.next[m.targets.len() - 1]]),
    ensures
        ({
            let t = m.targets[m.targets.len() - 1][m.next[m.targets.len() - 1]];
            let m1 = take_target(m);
            dfs_state(
                fs,
                file,
                SearchModel {
                    visited: m.visited.push(t),
                    path: m.path.push(t),
                    cycles: m.cycles,
                    targets: m.targets,
                    next: m1.next,
                },
                true,
            )
        }),
{
    let k = m.targets.len() - 1;
    let t = m.targets[k][m.next[k]];
    let m1 = take_target(m);
    let m3 = SearchModel {
        visited: m.visited.push(t),
        path: m.path.push(t),
        cycles: m.cycles,
        targets: m.targets,
        next: m1.next,
    };
    lemma_take_follows(fs, m);
    assert(m1.targets[k][m1.next[k] - 1] == t);
    lemma_enter_follows(fs, m1, t);
    assert(m3.path[0] == m.path[0]);
    assert(m3.visited.contains(file)) by {
        let i = choose|i: int| 0 <= i < m.visited.len() && m.visited[i] == file;
        assert(m3.visited[i] == file);
    }
    assert forall|j: int| 1 <= j < m3.path.len() implies m3.visited.contains(#[trigger] m3.path[j]) by {
        if j < m.path.len() {
            assert(m3.path[j] == m.path[j]);
            assert(m.visited.contains(m.path[j]));
            let i = choose|i: int| 0 <= i < m.visited.len() && m.visited[i] == m.path[j];
            assert(m3.visited[i] == m.path[j]);
        } else {
            assert(m3.visited[m.visited.len() as int] == t);
        }
    }
    assert forall|a: int, b: int|
        1 <= a < m3.path.len() && 1 <= b < m3.path.len() && a != b implies #[trigger] m3.path[a] != #[trigger] m3.path[b] by {
        if a < m.path.len() && b < m.path.len() {
            assert(m3.path[a] == m.path[a] && m3.path[b] == m.path[b]);
        } else if a < m.path.len() {
            assert(m3.path[a] == m.path[a]);
            assert(m.visited.contains(m.path[a]));
        } else {
            assert(m3.path[b] == m.path[b]);
            assert(m.visited.contains(m.path[b]));
        }
    }
    if m3.cycles.len() == 0 {
        assert forall|x: Seq<char>| finished(m3, x) == finished(m, x) by {
            lemma_on_path_drop_first(m, x);
            lemma_on_path_drop_first(m3, x);
            if m3.visited.contains(x) && x != t {
                let i = choose|i: int| 0 <= i < m3.visited.len() && m3.visited[i] == x;
                assert(m.visited[i] == x);
            }
            if m.visited.contains(x) {
                let i = choose|i: int| 0 <= i < m.visited.len() && m.visited[i] == x;
                assert(m3.visited[i] == x);
            }
            if on_path(m, x) {
                let j = choose|j: int| 1 <= j < m.path.len() && m.path[j] == x;
                assert(m3.path[j] == x);
            }
            if on_path(m3, x) && x != t {
                let j = choose|j: int| 1 <= j < m3.path.len() && m3.path[j] == x;
                assert(m.path[j] == x);
            }
            if x == t {
                assert(m3.path[m.path.len() as int] == t);
            }
        }
        assert(finished_closed(fs, m3));
        assert forall|w: Seq<Seq<char>>| #[trigger] closed_walk(fs, w) implies exists|i: int|
            0 <= i < w.len() && !finished(m3, #[trigger] w[i]) by {
            let i = choose|i: int| 0 <= i < w.len() && !finished(m, #[trigger] w[i]);
            assert(!finished(m3, w[i]));
        }
        assert forall|q: int, i: int| 0 <= q < m3.targets.len() && 0 <= i < m3.next[q] implies #[trigger] taken_ok(m3, q, i) by {
            if q == k && i == m.next[k] {
                assert(m3.path[k + 2] == t);
            } else {
                assert(taken_ok(m, q, i));
                if q == k {
                    assert(!(k + 2 < m.path.len()));
                    assert(finished(m, m.targets[q][i]));
                } else if finished(m, m.targets[q][i]) {
                } else {
                    assert(m3.path[q + 2] == m.path[q + 2]);
                    assert(m3.next[q] == m.next[q]);
                }
            }
        }
    }
}

proof fn lemma_leave_dfs(fs: spec_fn(Seq<char>) -> Option<Seq<char>>, file: Seq<char>, m: SearchModel)
    requires
        dfs_state(fs, file, m, false),
        m.targets.len() > 0,
        m.next[m.targets.len() - 1] >= m.targets[m.targets.len() - 1].len(),
    ensures
        dfs_state(fs, file, leave_file(m), false),
{
    let k = m.targets.len() - 1;
    let f = m.path[k + 1];
    let m2 = leave_file(m);
    lemma_leave_follows(fs, m);
    assert(m2.path[0] == m.path[0]);
    assert forall|j: int| 1 <= j < m2.path.len() implies m2.visited.contains(#[trigger] m2.path[j]) by {
        assert(m2.path[j] == m.path[j]);
    }
    assert forall|a: int, b: int|
        1 <= a < m2.path.len() && 1 <= b < m2.path.len() && a != b implies #[trigger] m2.path[a] != #[trigger] m2.path[b] by {
        assert(m2.path[a] == m.path[a] && m2.path[b] == m.path[b]);
    }
    if m2.cycles.len() == 0 {
        assert(m.visited.contains(f));
        assert(on_path(m, f)) by {
            lemma_on_path_drop_first(m, f);
        }
        assert forall|x: Seq<char>| finished(m2, x) == (finished(m, x) || x == f) by {
            lemma_on_path_drop_first(m, x);
            lemma_on_path_drop_first(m2, x);
            if on_path(m2, x) {
                let j = choose|j: int| 1 <= j < m2.path.len() && m2.path[j] == x;
                assert(m.path[j] == x);
                if x == f {
                    assert(m.path[j] == m.path[k + 1]);
                }
            }
            if on_path(m, x) && x != f {
                let j = choose|j: int| 1 <= j < m.path.len() && m.path[j] == x;
                assert(j != k + 1);
                assert(m2.path[j] == x);
            }
        }
        assert forall|s: Seq<char>| #[trigger] includes(fs, f, s) implies finished(m, s) by {
            assert(m.targets[k] == included_by(fs, m.path[k + 1]));
            let i = choose|i: int| 0 <= i < m.targets[k].len() && m.targets[k][i] == s;
            assert(taken_ok(m, k, i));
        }
        assert forall|b: Seq<char>, s: Seq<char>| finished(m2, b) && #[trigger] includes(fs, b, s) implies finished(m2, s) by {
            if b != f {
                assert(finished(m, b));
            }
        }
        assert forall|w: Seq<Seq<char>>| #[trigger] closed_walk(fs, w) implies exists|i: int|
            0 <= i < w.len() && !finished(m2, #[trigger] w[i]) by {
            let i0 = choose|i: int| 0 <= i < w.len() && !finished(m, #[trigger] w[i]);
            if finished(m2, w[i0]) {
                assert(w[i0] == f);
                let p = if i0 == 0 { w.len() - 1 } else { i0 - 1 };
                assert(includes(fs, w[p], f)) by {
                    if i0 > 0 {
                        let q = i0 - 1;
                        assert(includes(fs, w[q], w[q + 1]));
                    }
                }
                assert(!finished(m2, w[p])) by {
                    if finished(m2, w[p]) {
                        if w[p] == f {
                            assert(finished(m, f));
                        } else {
                            assert(finished(m, w[p]));
                            assert(finished(m, f));
                        }
                    }
                }
            }
        }
        assert forall|q: int, i: int| 0 <= q < m2.targets.len() && 0 <= i < m2.next[q] implies #[trigger] taken_ok(m2, q, i) by {
            assert(m2.targets[q] == m.targets[q]);
            assert(m2.next[q] == m.next[q]);
            assert(taken_ok(m, q, i));
            if !finished(m, m.targets[q][i]) {
                if q + 2 < m2.path.len() {
                    assert(m2.path[q + 2] == m.path[q + 2]);
                } else {
                    assert(q + 2 == k + 1);
                    assert(m.targets[q][i] == f);
                }
            }
        }
    }
}

proof fn lemma_advance_dfs(fs: spec_fn(Seq<char>) -> Option<Seq<char>>, file: Seq<char>, m: SearchModel)
    requires
        dfs_state(fs, file, m, false),
    ensures
        dfs_state(fs, file, advance(m).0, advance(m).1 is Some),
    decreases m.targets.len(), top_remaining(m),
{
    if m.targets.len() == 0 || m.next.len() != m.targets.len() {
    } else {
        let k = m.targets.len() - 1;
        if 0 <= m.next[k] < m.targets[k].len() {
            let t = m.targets[k][m.next[k]];
            if m.visited.contains(t) {
                lemma_record_dfs(fs, file, m);
                lemma_advance_dfs(fs, file, record_cycle(take_target(m), t));
            } else {
                lemma_enter_dfs(fs, file, m);
            }
        } else {
            lemma_leave_dfs(fs, file, m);
            lemma_advance_dfs(fs, file, leave_file(m));
        }
    }
}

proof fn lemma_content_dfs(fs: spec_fn(Seq<char>) -> Option<Seq<char>>, file: Seq<char>, m: SearchModel)
    requires
        dfs_state(fs, file, m, true),
    ensures
        dfs_state(fs, file, with_content(m, fs(m.path.last())), false),
{
    let m1 = with_content(m, fs(m.path.last()));
    lemma_content_follows(fs, m);
    if m1.cycles.len() == 0 {
        assert forall|x: Seq<char>| finished(m1, x) == finished(m, x) by {}
        assert(finished_closed(fs, m1));
        assert forall|w: Seq<Seq<char>>| #[trigger] closed_walk(fs, w) implies exists|i: int|
            0 <= i < w.len() && !finished(m1, #[trigger] w[i]) by {
            let i = choose|i: int| 0 <= i < w.len() && !finished(m, #[trigger] w[i]);
            assert(!finished(m1, w[i]));
        }
        assert forall|q: int, i: int| 0 <= q < m1.targets.len() && 0 <= i < m1.next[q] implies #[trigger] taken_ok(m1, q, i) by {
            assert(q < m.targets.len());
            assert(m1.next[q] == m.next[q]);
            assert(m1.targets[q] == m.targets[q]);
            assert(taken_ok(m, q, i));
        }
    }
}

proof fn lemma_reachable_finished(
    fs: spec_fn(Seq<char>) -> Option<Seq<char>>,
    m: SearchModel,
    p: Seq<Seq<char>>,
    n: int,
)
    requires
        finished_closed(fs, m),
        p.len() >= 1,
        finished(m, p[0]),
        forall|i: int| 0 <= i < p.len() - 1 ==> #[trigger] includes(fs, p[i], p[i + 1]),
        0 <= n < p.len(),
    ensures
        finished(m, p[n]),
    decreases n,
{
    if n > 0 {
        lemma_reachable_finished(fs, m, p, n - 1);
        let q = n - 1;
        assert(includes(fs, p[q], p[q + 1]));
    }
}

/// Law: a search that ends without reporting a cycle has walked into no
/// circular include.  The search starts as a depth-first walk from `file`;
/// each round, answered with the content in `fs` of the file it asked for,
/// keeps it one; and once it is over (no file being walked) with no cycle
/// found, no closed walk of includes can be reached from `file`.
pub proof fn law_search_finds_reachable_cycles(
    fs: spec_fn(Seq<char>) -> Option<Seq<char>>,
    file: Seq<char>,
    m: SearchModel,
)
    ensures
        dfs_state(fs, file, initial_model(file), true),
        dfs_state(fs, file, m, true) ==> dfs_state(fs, file, search_step(fs, m).0, search_step(fs, m).1 is Some),
        dfs_state(fs, file, m, false) && m.targets.len() == 0 && m.cycles.len() == 0 ==> !reachable_cycle(fs, file),
{
    let m0 = initial_model(file);
    lemma_initial_follows(fs, file);
    assert(m0.visited[0] == file);
    assert forall|x: Seq<char>| !finished(m0, x) || x != file by {
        lemma_on_path_drop_first(m0, x);
        if x == file {
            assert(m0.path[1] == file);
        }
    }
    assert forall|x: Seq<char>| !finished(m0, x) by {
        if m0.visited.contains(x) {
            let i = choose|i: int| 0 <= i < m0.visited.len() && m0.visited[i] == x;
            assert(x == file);
        }
    }
    assert forall|w: Seq<Seq<char>>| #[trigger] closed_walk(fs, w) implies exists|i: int|
        0 <= i < w.len() && !finished(m0, #[trigger] w[i]) by {
        assert(!finished(m0, w[0]));
    }
    if dfs_state(fs, file, m, true) {
        lemma_content_dfs(fs, file, m);
        lemma_advance_dfs(fs, file, with_content(m, fs(m.path.last())));
    }
    if dfs_state(fs, file, m, false) && m.targets.len() == 0 && m.cycles.len() == 0 {
        assert(m.path.len() == 1);
        assert forall|x: Seq<char>| !on_path(m, x) by {
            lemma_on_path_drop_first(m, x);
        }
        assert(finished(m, file));
        if reachable_cycle(fs, file) {
            let w = choose|w: Seq<Seq<char>>| #[trigger] closed_walk(fs, w) && reachable(fs, file, w[0]);
            let p = choose|p: Seq<Seq<char>>|
                p.len() >= 1 && p[0] == file && p.last() == w[0] && forall|i: int|
                    0 <= i < p.len() - 1 ==> #[trigger] includes(fs, p[i], p[i + 1]);
            lemma_reachable_finished(fs, m, p, p.len() - 1);
            lemma_reachable_finished(fs, m, w, w.len() - 1);
            let i = choose|i: int| 0 <= i < w.len() && !finished(m, #[trigger] w[i]);
            lemma_reachable_finished(fs, m, w, i);
        }
    }
}

/// A step that asks for a file leaves it last on the path.
pub proof fn lemma_advance_reads_last(m: SearchModel)
    ensures
        advance(m).1 matches Some(f) ==> advance(m).0.path.len() > 0 && advance(m).0.path.last() == f,
    decreases m.targets.len(), top_remaining(m),
{
    if m.targets.len() == 0 || m.next.len() != m.targets.len() {
    } else {
        let k = m.targets.len() - 1;
        if 0 <= m.next[k] < m.targets[k].len() {
            let t = m.targets[k][m.next[k]];
            if m.visited.contains(t) {
                lemma_advance_reads_last(record_cycle(take_target(m), t));
            }
        } else {
            lemma_advance_reads_last(leave_file(m));
        }
    }
}

/// What a step of the search asks for.
#[derive(Debug, Clone)]
pub enum SearchStep {
    /// The content of this file is needed next.
    Read(String),
    /// The search is over.
    Done,
}

/// The file a step asks for, if any.
pub open spec fn step_view(s: SearchStep) -> Option<Seq<char>> {
    match s {
        SearchStep::Read(f) => Some(f@),
        SearchStep::Done => None,
    }
}

/// The view of an optional string slice.
pub open spec fn opt_text(s: Option<&str>) -> Option<Seq<char>> {
    match s {
        Some(c) => Some(c@),
        None => None,
    }
}

/// A search for circular `include` chains.
pub struct CycleSearch {
    visited: Vec<String>,
    path: Vec<String>,
    cycles: Vec<Vec<String>>,
    targets: Vec<Vec<String>>,
    next: Vec<usize>,
    awaiting: bool,
}

impl View for CycleSearch {
    type V = SearchModel;

    closed spec fn view(&self) -> SearchModel {
        SearchModel {
            visited: self.visited.deep_view(),
            path: self.path.deep_view(),
            cycles: self.cycles.deep_view(),
            targets: self.targets.deep_view(),
            next: self.next@.map_values(|n: usize| n as int),
        }
    }
}

fn index_of(v: &Vec<String>, t: &String) -> (r: Option<usize>)
    ensures
        match (r, index_from(v.deep_view(), t@, 0)) {
            (Some(a), Some(b)) => a as int == b,
            (None, None) => true,
            _ => false,
        },
{
    let n = v.len();
    let mut i: usize = 0;
    while i < n
        invariant
            n == v.len(),
            i <= n,
            index_from(v.deep_view(), t@, 0) == index_from(v.deep_view(), t@, i as int),
        decreases n - i,
    {
        if v[i] == *t {
            assert(v.deep_view()[i as int] == v@[i as int]@);
            return Some(i);
        }
        assert(v.deep_view()[i as int] == v@[i as int]@);
        i = i + 1;
    }
    None
}

fn same_texts(a: &Vec<String>, b: &Vec<String>) -> (r: bool)
    ensures
        r == (a.deep_view() == b.deep_view()),
{
    if a.len() != b.len() {
        assert(a.deep_view().len() != b.deep_view().len());
        return false;
    }
    let n = a.len();
    let mut i: usize = 0;
    while i < n
        invariant
            n == a.len(),
            n == b.len(),
            i <= n,
            forall|j: int| 0 <= j < i ==> a.deep_view()[j] == b.deep_view()[j],
        decreases n - i,
    {
        if a[i] != b[i] {
            assert(a.deep_view()[i as int] == a@[i as int]@);
            assert(b.deep_view()[i as int] == b@[i as int]@);
            return false;
        }
        i = i + 1;
    }
    assert(a.deep_view() =~= b.deep_view());
    true
}

fn holds_cycle(cycles: &Vec<Vec<String>>, c: &Vec<String>) -> (r: bool)
    ensures
        r == cycles.deep_view().contains(c.deep_view()),
{
    let n = cycles.len();
    let mut i: usize = 0;
    while i < n
        invariant
            n == cycles.len(),
            i <= n,
            forall|j: int| 0 <= j < i ==> cycles.deep_view()[j] != c.deep_view(),
        decreases n - i,
    {
        if same_texts(&cycles[i], c) {
            assert(cycles.deep_view()[i as int] == c.deep_view());
            return true;
        }
        i = i + 1;
    }
    false
}

fn suffix_from(v: &Vec<String>, pos: usize) -> (r: Vec<String>)
    requires
        pos <= v.len(),
    ensures
        r.deep_view() == v.deep_view().skip(pos as int),
{
    let mut r: Vec<String> = Vec::new();
    let mut i = pos;
    while i < v.len()
        invariant
            pos <= i <= v.len(),
            r.deep_view() == v.deep_view().subrange(pos as int, i as int),
        decreases v.len() - i,
    {
        let ghost before = r.deep_view();
        r.push(v[i].clone());
        assert(r.deep_view() =~= before.push(v@[i as int]@));
        assert(v.deep_view()[i as int] == v@[i as int]@);
        assert(r.deep_view() =~= v.deep_view().subrange(pos as int, i + 1));
        i = i + 1;
    }
    r
}

impl CycleSearch {
    /// The lists of the state agree in length, and the path is as long as
    /// the nesting of the walk requires.
    pub closed spec fn wf(&self) -> bool {
        &&& self.targets.len() == self.next.len()
        &&& self.path.len() == self.targets.len() + 1 + if self.awaiting {
            1int
        } else {
            0
        }
    }

    /// The search waits for the content of a file.
    pub closed spec fn awaiting(&self) -> bool {
        self.awaiting
    }

    /// Starts a search from `file`; its first step asks for that file.
    pub fn start(file: &str) -> (r: (CycleSearch, SearchStep))
        ensures
            r.0.wf(),
            r.0@ == initial_model(file@),
            r.0.awaiting(),
            step_view(r.1) == Some(file@),
    {
        let mut visited: Vec<String> = Vec::new();
        visited.push(String::from_str(file));
        let mut path: Vec<String> = Vec::new();
        path.push(String::from_str(file));
        path.push(String::from_str(file));
        let s = CycleSearch {
            visited,
            path,
            cycles: Vec::new(),
            targets: Vec::new(),
            next: Vec::new(),
            awaiting: true,
        };
        assert(s@.visited =~= seq![file@]);
        assert(s@.path =~= seq![file@, file@]);
        assert(s@.cycles =~= Seq::<Seq<Seq<char>>>::empty());
        assert(s@.targets =~= Seq::<Seq<Seq<char>>>::empty());
        assert(s@.next =~= Seq::<int>::empty());
        (s, SearchStep::Read(String::from_str(file)))
    }

    /// Hands the search the content of the file it asked for (`None` where
    /// that file could not be read) and takes the next step.
    pub fn resume(&mut self, content: Option<&str>) -> (r: SearchStep)
        requires
            old(self).wf(),
            old(self).awaiting(),
        ensures
            final(self).wf(),
            final(self).awaiting() == (r is Read),
            (final(self)@, step_view(r)) == advance(with_content(old(self)@, opt_text(content))),
            step_view(r) matches Some(f) ==> final(self)@.path.last() == f,
    {
        let t = match content {
            Some(c) => line_dependencies(c, DependencyKeyword::Include),
            None => {
                let e: Vec<String> = Vec::new();
                assert(e.deep_view() =~= Seq::<Seq<char>>::empty());
                e
            },
        };
        let ghost before = self@;
        let ghost tv = t.deep_view();
        self.targets.push(t);
        self.next.push(0);
        assert(self.targets.deep_view() =~= before.targets.push(tv));
        self.awaiting = false;
        assert(self@.targets =~= with_content(before, opt_text(content)).targets);
        assert(self@.next =~= with_content(before, opt_text(content)).next);
        proof {
            lemma_advance_reads_last(self@);
        }
        self.advance()
    }

    /// The cycles found so far.
    pub fn cycles(&self) -> (r: Vec<Vec<String>>)
        ensures
            r.deep_view() == self@.cycles,
    {
        let mut r: Vec<Vec<String>> = Vec::new();
        let mut i: usize = 0;
        while i < self.cycles.len()
            invariant
                i <= self.cycles.len(),
                r.deep_view() == self.cycles.deep_view().take(i as int),
            decreases self.cycles.len() - i,
        {
            let c = suffix_from(&self.cycles[i], 0);
            assert(self.cycles@[i as int].deep_view().skip(0) =~= self.cycles@[i as int].deep_view());
            let ghost before = r.deep_view();
            let ghost cv = c.deep_view();
            r.push(c);
            assert(r.deep_view() =~= before.push(cv));
            assert(self.cycles.deep_view()[i as int] == self.cycles@[i as int].deep_view());
            assert(r.deep_view() =~= self.cycles.deep_view().take(i + 1));
            i = i + 1;
        }
        assert(self.cycles.deep_view().take(i as int) =~= self.cycles.deep_view());
        r
    }

    /// Whether a cycle has been found.
    pub fn has_circular(&self) -> (r: bool)
        ensures
            r == (self@.cycles.len() > 0),
    {
        self.cycles.len() > 0
    }

    fn advance(&mut self) -> (r: SearchStep)
        requires
            old(self).targets.len() == old(self).next.len(),
            old(self).path.len() == old(self).targets.len() + 1,
            !old(self).awaiting,
        ensures
            final(self).wf(),
            final(self).awaiting() == (r is Read),
            (final(self)@, step_view(r)) == advance(old(self)@),
    {
        let ghost goal = advance(self@);
        loop
            invariant
                self.targets.len() == self.next.len(),
                self.path.len() == self.targets.len() + 1,
                !self.awaiting,
                advance(self@) == goal,
                goal == advance(old(self)@),
            decreases self.targets.len(), top_remaining(self@),
        {
            let n = self.targets.len();
            if n == 0 {
                assert(advance(self@) == (self@, None::<Seq<char>>));
                return SearchStep::Done;
            }
            let k = n - 1;
            let next = self.next[k];
            if next < self.targets[k].len() {
                let t = self.targets[k][next].clone();
                let ghost m = self@;
                self.next.set(k, next + 1);
                assert(self@.next =~= m.next.update(k as int, m.next[k as int] + 1));
                assert(t@ == m.targets[k as int][m.next[k as int]]);
                if self.visited_contains(&t) {
                    self.record_cycle(&t);
                    assert(advance(m) == advance(self@));
                } else {
                    self.visited.push(t.clone());
                    self.path.push(t.clone());
                    self.awaiting = true;
                    assert(self@.visited =~= m.visited.push(t@));
                    assert(self@.path =~= m.path.push(t@));
                    assert(advance(m) == (self@, Some(t@)));
                    return SearchStep::Read(t);
                }
            } else {
                let ghost m = self@;
                self.targets.pop();
                self.next.pop();
                self.path.pop();
                assert(self@.targets =~= m.targets.drop_last());
                assert(self@.next =~= m.next.drop_last());
                assert(self@.path =~= m.path.drop_last());
                assert(advance(m) == advance(self@));
            }
        }
    }

    fn visited_contains(&self, t: &String) -> (r: bool)
        ensures
            r == self@.visited.contains(t@),
    {
        let n = self.visited.len();
        let mut i: usize = 0;
        while i < n
            invariant
                n == self.visited.len(),
                i <= n,
                forall|j: int| 0 <= j < i ==> self.visited.deep_view()[j] != t@,
            decreases n - i,
        {
            if self.visited[i] == *t {
                assert(self.visited.deep_view()[i as int] == t@);
                return true;
            }
            i = i + 1;
        }
        false
    }

    fn record_cycle(&mut self, t: &String)
        ensures
            final(self)@ == record_cycle(old(self)@, t@),
            final(self).visited == old(self).visited,
            final(self).path == old(self).path,
            final(self).targets == old(self).targets,
            final(self).next == old(self).next,
            final(self).awaiting == old(self).awaiting,
    {
        proof {
            lemma_index_from(self.path.deep_view(), t@, 0);
        }
        match index_of(&self.path, t) {
            Some(pos) => {
                let c = suffix_from(&self.path, pos);
                if !holds_cycle(&self.cycles, &c) {
                    let ghost before = self.cycles.deep_view();
                    let ghost cv = c.deep_view();
                    self.cycles.push(c);
                    assert(self.cycles.deep_view() =~= before.push(cv));
                }
            },
            None => {},
        }
    }
}

} // verus!
