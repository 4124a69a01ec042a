//! Dependency graph of OpenSCAD models and detection of circular includes.
use vstd::prelude::*;
use vstd::string::*;
use super::path_key::{path_key, path_key_of};

verus! {

/// The adjacency map of a dependency graph: each model path that has
/// dependencies, mapped to those dependencies in the order they were added.
pub type Adjacency = Map<Seq<char>, Seq<Seq<char>>>;

/// `u` depends directly on `v`.
pub open spec fn has_edge(g: Adjacency, u: Seq<char>, v: Seq<char>) -> bool {
    g.contains_key(u) && g[u].contains(v)
}

/// Step `k` of the walk `p` follows an edge of `g`.
pub open spec fn walk_step(g: Adjacency, p: Seq<Seq<char>>, k: int) -> bool {
    has_edge(g, p[k], p[k + 1])
}

/// `p` is a walk of at least one edge that returns to where it started.
pub open spec fn is_cycle(g: Adjacency, p: Seq<Seq<char>>) -> bool {
    &&& p.len() >= 2
    &&& p[0] == p[p.len() - 1]
    &&& forall|k: int| 0 <= k < p.len() - 1 ==> #[trigger] walk_step(g, p, k)
}

/// Some model depends, directly or through other models, on itself.
pub open spec fn has_cycle_in(g: Adjacency) -> bool {
    exists|p: Seq<Seq<char>>| is_cycle(g, p)
}

/// `g` once `u` is recorded to depend on `v`: `v` is added at the end of
/// the dependencies of `u`.
pub open spec fn with_edge(g: Adjacency, u: Seq<char>, v: Seq<char>) -> Adjacency {
    g.insert(
        u,
        if g.contains_key(u) {
            g[u].push(v)
        } else {
            seq![v]
        },
    )
}

/// The dependencies as given (`targets`) that recording `edges` (pairs of a
/// model and what it depends on), in order with `add_edge`, builds from an
/// empty graph.
pub open spec fn graph_of_edges(edges: Seq<(Seq<char>, Seq<char>)>) -> Adjacency
    decreases edges.len(),
{
    if edges.len() == 0 {
        Map::empty()
    } else {
        with_edge(graph_of_edges(edges.drop_last()), path_key(edges.last().0), edges.last().1)
    }
}

/// What `edges` record for the model `p`: the targets of the pairs from a
/// path with the components of `p`, as given, in order, repeats kept.
pub open spec fn targets_from(edges: Seq<(Seq<char>, Seq<char>)>, p: Seq<char>) -> Seq<Seq<char>>
    decreases edges.len(),
{
    if edges.len() == 0 {
        seq![]
    } else {
        targets_from(edges.drop_last(), p) + if path_key(edges.last().0) == path_key(p) {
            seq![edges.last().1]
        } else {
            seq![]
        }
    }
}

/// Law: after recording `edges` in order on a new graph, looking up `p`
/// (by its components, as `get_deps` does) finds dependencies exactly where
/// some pair starts from `p`, and they are the targets of those pairs in
/// the order recorded, repeats kept.
pub proof fn law_deps_after_edges(edges: Seq<(Seq<char>, Seq<char>)>, p: Seq<char>)
    ensures
        graph_of_edges(edges).contains_key(path_key(p)) <==> targets_from(edges, p).len() > 0,
        graph_of_edges(edges).contains_key(path_key(p)) ==> graph_of_edges(edges)[path_key(p)]
            == targets_from(edges, p),
    decreases edges.len(),
{
    if edges.len() > 0 {
        law_deps_after_edges(edges.drop_last(), p);
        let g = graph_of_edges(edges.drop_last());
        let u = path_key(edges.last().0);
        let v = edges.last().1;
        let k = path_key(p);
        if u == k {
            if g.contains_key(k) {
                assert(g[k].push(v) =~= targets_from(edges.drop_last(), p) + seq![v]);
            } else {
                assert(targets_from(edges.drop_last(), p).len() == 0);
                assert(seq![v] =~= targets_from(edges.drop_last(), p) + seq![v]);
            }
        } else {
            assert(targets_from(edges, p) =~= targets_from(edges.drop_last(), p));
        }
    }
}

/// Law: a graph without dependencies has no cycle.
pub proof fn law_empty_graph_acyclic()
    ensures
        !has_cycle_in(Map::<Seq<char>, Seq<Seq<char>>>::empty()),
{
    let g = Map::<Seq<char>, Seq<Seq<char>>>::empty();
    if has_cycle_in(g) {
        let p = choose|p: Seq<Seq<char>>| is_cycle(g, p);
        assert(walk_step(g, p, 0));
    }
}

/// Law: once `u` is recorded to depend on `v`, it does, and every
/// dependency recorded before stays recorded.
pub proof fn law_edge_recorded(g: Adjacency, u: Seq<char>, v: Seq<char>, a: Seq<char>, b: Seq<char>)
    ensures
        has_edge(with_edge(g, u, v), u, v),
        has_edge(g, a, b) ==> has_edge(with_edge(g, u, v), a, b),
        has_edge(with_edge(g, u, v), a, b) ==> has_edge(g, a, b) || (a == u && b == v),
{
    let h = with_edge(g, u, v);
    if g.contains_key(u) {
        assert(h[u][g[u].len() as int] == v);
    } else {
        assert(h[u][0] == v);
    }
    if has_edge(g, a, b) && a == u {
        let k = choose|k: int| 0 <= k < g[u].len() && g[u][k] == b;
        assert(h[u][k] == b);
    }
    if has_edge(h, a, b) && a == u && b != v && g.contains_key(u) {
        let k = choose|k: int| 0 <= k < h[u].len() && h[u][k] == b;
        assert(g[u][k] == b);
    }
}

/// Law: recording a dependency never removes a cycle.
pub proof fn law_cycles_kept(g: Adjacency, u: Seq<char>, v: Seq<char>)
    requires
        has_cycle_in(g),
    ensures
        has_cycle_in(with_edge(g, u, v)),
{
    let p = choose|p: Seq<Seq<char>>| is_cycle(g, p);
    let h = with_edge(g, u, v);
    assert forall|k: int| 0 <= k < p.len() - 1 implies #[trigger] walk_step(h, p, k) by {
        assert(walk_step(g, p, k));
        law_edge_recorded(g, u, v, p[k], p[k + 1]);
    }
    assert(is_cycle(h, p));
}

/// Law: a model that depends on itself makes a cycle.
pub proof fn law_self_dependency_is_cycle(g: Adjacency, u: Seq<char>)
    requires
        has_edge(g, u, u),
    ensures
        has_cycle_in(g),
{
    let p = seq![u, u];
    assert(walk_step(g, p, 0));
    assert(is_cycle(g, p));
}

/// Law: two models that depend on each other make a cycle.
pub proof fn law_mutual_dependency_is_cycle(g: Adjacency, u: Seq<char>, v: Seq<char>)
    requires
        has_edge(g, u, v),
        has_edge(g, v, u),
    ensures
        has_cycle_in(g),
{
    let p = seq![u, v, u];
    assert(walk_step(g, p, 0));
    assert(walk_step(g, p, 1));
    assert(is_cycle(g, p));
}

/// Law: where every dependency goes from a model to one of strictly higher
/// rank, there is no cycle.
pub proof fn law_ranked_graph_acyclic(g: Adjacency, rank: spec_fn(Seq<char>) -> int)
    requires
        forall|a: Seq<char>, b: Seq<char>| #[trigger] has_edge(g, a, b) ==> rank(a) < rank(b),
    ensures
        !has_cycle_in(g),
{
    if has_cycle_in(g) {
        let p = choose|p: Seq<Seq<char>>| is_cycle(g, p);
        lemma_rank_grows(g, rank, p, p.len() - 1);
        assert(walk_step(g, p, 0));
    }
}

proof fn lemma_rank_grows(g: Adjacency, rank: spec_fn(Seq<char>) -> int, p: Seq<Seq<char>>, k: int)
    requires
        forall|a: Seq<char>, b: Seq<char>| #[trigger] has_edge(g, a, b) ==> rank(a) < rank(b),
        forall|j: int| 0 <= j < p.len() - 1 ==> #[trigger] walk_step(g, p, j),
        0 <= k < p.len(),
    ensures
        rank(p[k]) >= rank(p[0]) + k,
    decreases k,
{
    if k > 0 {
        lemma_rank_grows(g, rank, p, k - 1);
        assert(walk_step(g, p, k - 1));
    }
}

// ----- graphs over dense node numbers -----
spec fn iedge(adj: Seq<Seq<usize>>, a: int, b: int) -> bool {
    0 <= a < adj.len() && exists|t: int| 0 <= t < adj[a].len() && #[trigger] adj[a][t] as int == b
}

spec fn istep(adj: Seq<Seq<usize>>, p: Seq<int>, k: int) -> bool {
    iedge(adj, p[k], p[k + 1])
}

spec fn is_iwalk(adj: Seq<Seq<usize>>, p: Seq<int>) -> bool {
    forall|k: int| 0 <= k < p.len() - 1 ==> #[trigger] istep(adj, p, k)
}

spec fn is_icycle(adj: Seq<Seq<usize>>, p: Seq<int>) -> bool {
    &&& p.len() >= 2
    &&& p[0] == p[p.len() - 1]
    &&& is_iwalk(adj, p)
}

spec fn has_icycle(adj: Seq<Seq<usize>>) -> bool {
    exists|p: Seq<int>| is_icycle(adj, p)
}

spec fn adj_wf(adj: Seq<Seq<usize>>) -> bool {
    forall|a: int, t: int| 0 <= a < adj.len() && 0 <= t < adj[a].len() ==> #[trigger] adj[a][t]
        < adj.len()
}

/// Number of unvisited (colour 0) nodes.
spec fn white_count(c: Seq<u8>) -> nat
    decreases c.len(),
{
    if c.len() == 0 {
        0
    } else {
        white_count(c.drop_last()) + if c.last() == 0u8 {
            1nat
        } else {
            0nat
        }
    }
}

proof fn lemma_white_count_mono(c1: Seq<u8>, c2: Seq<u8>)
    requires
        c1.len() == c2.len(),
        forall|i: int| 0 <= i < c2.len() && c2[i] == 0 ==> c1[i] == 0,
    ensures
        white_count(c2) <= white_count(c1),
        (exists|i: int| 0 <= i < c2.len() && c1[i] == 0 && c2[i] != 0) ==> white_count(c2)
            < white_count(c1),
    decreases c1.len(),
{
    if c1.len() > 0 {
        lemma_white_count_mono(c1.drop_last(), c2.drop_last());
        assert forall|i: int| 0 <= i < c2.len() - 1 && c1[i] == 0 && c2[i] != 0 implies (
        c1.drop_last()[i] == 0 && c2.drop_last()[i] != 0) by {}
    }
}

/// Grey (colour 1) nodes are exactly the nodes of the current search path.
spec fn grey_is_stack(color: Seq<u8>, stack: Seq<int>) -> bool {
    &&& forall|v: int| 0 <= v < color.len() ==> (color[v] == 1 <==> stack.contains(v))
    &&& forall|k: int| 0 <= k < stack.len() ==> 0 <= #[trigger] stack[k] < color.len()
}

/// Finished (colour 2) nodes only lead to finished nodes that finished earlier.
spec fn black_closed(adj: Seq<Seq<usize>>, color: Seq<u8>, fin: Seq<int>, counter: int) -> bool {
    &&& fin.len() == color.len()
    &&& forall|u: int|
        0 <= u < color.len() && #[trigger] color[u] == 2 ==> {
            &&& fin[u] < counter
            &&& forall|t: int|
                0 <= t < adj[u].len() ==> color[#[trigger] adj[u][t] as int] == 2 && fin[adj[u][t] as int]
                    < fin[u]
        }
}

spec fn colors_ok(color: Seq<u8>) -> bool {
    forall|v: int| 0 <= v < color.len() ==> #[trigger] color[v] <= 2
}

proof fn lemma_fin_decreases(
    adj: Seq<Seq<usize>>,
    color: Seq<u8>,
    fin: Seq<int>,
    counter: int,
    p: Seq<int>,
    m: int,
)
    requires
        adj_wf(adj),
        color.len() == adj.len(),
        black_closed(adj, color, fin, counter),
        forall|v: int| 0 <= v < color.len() ==> color[v] == 2,
        is_iwalk(adj, p),
        1 <= m < p.len(),
    ensures
        0 <= p[m] < adj.len(),
        0 <= p[0] < adj.len(),
        fin[p[m]] <= fin[p[0]] - m,
    decreases m,
{
    assert(istep(adj, p, m - 1));
    let a = p[m - 1];
    let t = choose|t: int| 0 <= t < adj[a].len() && #[trigger] adj[a][t] as int == p[m];
    assert(adj[a][t] < adj.len());
    if m > 1 {
        lemma_fin_decreases(adj, color, fin, counter, p, m - 1);
    }
    assert(color[a] == 2);
    assert(fin[adj[a][t] as int] < fin[a]);
}

proof fn lemma_no_icycle(adj: Seq<Seq<usize>>, color: Seq<u8>, fin: Seq<int>, counter: int)
    requires
        adj_wf(adj),
        color.len() == adj.len(),
        black_closed(adj, color, fin, counter),
        forall|v: int| 0 <= v < color.len() ==> color[v] == 2,
    ensures
        !has_icycle(adj),
{
    if has_icycle(adj) {
        let p = choose|p: Seq<int>| is_icycle(adj, p);
        lemma_fin_decreases(adj, color, fin, counter, p, p.len() - 1);
    }
}

/// Depth-first search from the unvisited node `u`.  Returns whether a back
/// edge (and so a cycle) was found; otherwise `u` and everything reachable
/// from it end finished.
fn dfs(
    adj: &Vec<Vec<usize>>,
    u: usize,
    color: &mut Vec<u8>,
    Ghost(stack): Ghost<Seq<int>>,
    Ghost(fin): Ghost<Seq<int>>,
    Ghost(counter): Ghost<int>,
) -> (res: (bool, Ghost<Seq<int>>, Ghost<int>))
    requires
        adj_wf(adj.deep_view()),
        old(color).len() == adj.len(),
        u < adj.len(),
        old(color)@[u as int] == 0,
        colors_ok(old(color)@),
        grey_is_stack(old(color)@, stack),
        is_iwalk(adj.deep_view(), stack),
        stack.len() > 0 ==> iedge(adj.deep_view(), stack[stack.len() - 1], u as int),
        black_closed(adj.deep_view(), old(color)@, fin, counter),
    ensures
        final(color).len() == old(color).len(),
        res.0 ==> has_icycle(adj.deep_view()),
        !res.0 ==> {
            let c0 = old(color)@;
            let c1 = final(color)@;
            &&& c1[u as int] == 2
            &&& colors_ok(c1)
            &&& grey_is_stack(c1, stack)
            &&& black_closed(adj.deep_view(), c1, res.1@, res.2@)
            &&& res.2@ >= counter
            &&& forall|v: int|
                0 <= v < c0.len() && c0[v] == 2 ==> #[trigger] c1[v] == 2 && res.1@[v] == fin[v]
            &&& forall|v: int| 0 <= v < c0.len() && c1[v] == 0 ==> #[trigger] c0[v] == 0
        },
    decreases white_count(old(color)@),
{
    let ghost g = adj.deep_view();
    let ghost c_entry = color@;
    color.set(u, 1);
    let ghost stack2 = stack.push(u as int);
    proof {
        lemma_white_count_mono(c_entry, color@);
        assert(color@[u as int] != 0);
        assert forall|v: int| 0 <= v < color@.len() implies (color@[v] == 1 <==> stack2.contains(
            v,
        )) by {
            if v == u as int {
                assert(stack2[stack2.len() - 1] == v);
            } else if stack.contains(v) {
                let k = choose|k: int| 0 <= k < stack.len() && stack[k] == v;
                assert(stack2[k] == v);
            } else if stack2.contains(v) {
                let k = choose|k: int| 0 <= k < stack2.len() && stack2[k] == v;
                if k < stack.len() {
                    assert(stack[k] == v);
                }
            }
        }
        assert forall|k: int| 0 <= k < stack2.len() - 1 implies #[trigger] istep(g, stack2, k) by {
            if k < stack.len() - 1 {
                assert(istep(g, stack, k));
            }
        }
    }
    let ghost c_grey = color@;
    let ghost mut fin_cur = fin;
    let ghost mut counter_cur = counter;
    let row = &adj[u];
    let n_row = row.len();
    let mut t: usize = 0;
    while t < n_row
        invariant
            g == adj.deep_view(),
            adj_wf(g),
            row@ == g[u as int],
            n_row == row.len(),
            t <= n_row,
            u < adj.len(),
            color.len() == adj.len(),
            c_grey.len() == color.len(),
            c_entry.len() == color.len(),
            white_count(c_grey) < white_count(c_entry),
            color@[u as int] == 1,
            colors_ok(color@),
            grey_is_stack(color@, stack2),
            is_iwalk(g, stack2),
            stack2 == stack.push(u as int),
            grey_is_stack(old(color)@, stack),
            black_closed(g, color@, fin_cur, counter_cur),
            counter_cur >= counter,
            forall|s: int| 0 <= s < t ==> color@[#[trigger] row@[s] as int] == 2,
            forall|v: int|
                0 <= v < c_entry.len() && c_entry[v] == 2 ==> #[trigger] color@[v] == 2 && fin_cur[v]
                    == fin[v],
            forall|v: int| 0 <= v < c_entry.len() && color@[v] == 0 ==> #[trigger] c_grey[v] == 0,
            forall|v: int| 0 <= v < c_entry.len() && c_grey[v] != 0 ==> #[trigger] color@[v] == c_grey[v],
            c_entry == old(color)@,
        decreases n_row - t,
    {
        let v = row[t];
        assert(v < adj.len()) by {
            assert(g[u as int][t as int] == v);
        }
        let cv = color[v];
        if cv == 1 {
            // `v` is on the current path: the path from `v` to `u`, then `u -> v`, is a cycle.
            proof {
                assert(stack2.contains(v as int));
                let j = choose|j: int| 0 <= j < stack2.len() && stack2[j] == v as int;
                let p = stack2.subrange(j, stack2.len() as int).push(v as int);
                assert(iedge(g, u as int, v as int)) by {
                    assert(g[u as int][t as int] == v);
                }
                assert forall|k: int| 0 <= k < p.len() - 1 implies #[trigger] istep(g, p, k) by {
                    if k < p.len() - 2 {
                        assert(istep(g, stack2, j + k));
                    }
                }
                assert(is_icycle(g, p));
            }
            return (true, Ghost(fin_cur), Ghost(counter_cur));
        } else if cv == 0 {
            let ghost c_before = color@;
            proof {
                lemma_white_count_mono(c_grey, color@);
            }
            let (found, f2, k2) = dfs(adj, v, color, Ghost(stack2), Ghost(fin_cur), Ghost(counter_cur));
            if found {
                return (true, f2, k2);
            }
            proof {
                fin_cur = f2@;
                counter_cur = k2@;
                assert forall|s: int| 0 <= s < t + 1 implies color@[#[trigger] row@[s] as int] == 2 by {
                    if s < t {
                        assert(c_before[row@[s] as int] == 2);
                    }
                }
            }
        } else {
            assert forall|s: int| 0 <= s < t + 1 implies color@[#[trigger] row@[s] as int] == 2 by {}
        }
        t = t + 1;
    }
    let ghost c_done = color@;
    color.set(u, 2);
    let ghost fin_out = fin_cur.update(u as int, counter_cur);
    let ghost counter_out = counter_cur + 1;
    proof {
        let c1 = color@;
        assert forall|w: int| 0 <= w < c1.len() && #[trigger] c1[w] == 2 implies {
            &&& fin_out[w] < counter_out
            &&& forall|t2: int|
                0 <= t2 < g[w].len() ==> c1[#[trigger] g[w][t2] as int] == 2 && fin_out[g[w][t2] as int]
                    < fin_out[w]
        } by {
            if w == u as int {
                assert forall|t2: int| 0 <= t2 < g[w].len() implies c1[#[trigger] g[w][t2] as int] == 2
                    && fin_out[g[w][t2] as int] < fin_out[w] by {
                    assert(row@[t2] == g[w][t2]);
                    assert(c_done[row@[t2] as int] == 2);
                }
            } else {
                assert(c_done[w] == 2);
                assert forall|t2: int| 0 <= t2 < g[w].len() implies c1[#[trigger] g[w][t2] as int] == 2
                    && fin_out[g[w][t2] as int] < fin_out[w] by {
                    assert(c_done[g[w][t2] as int] == 2);
                }
            }
        }
        assert forall|v: int| 0 <= v < c1.len() implies (c1[v] == 1 <==> stack.contains(v)) by {
            if v == u as int {
            } else {
                assert(c_done[v] == c1[v]);
                if stack2.contains(v) {
                    let k = choose|k: int| 0 <= k < stack2.len() && stack2[k] == v;
                    assert(stack[k] == v);
                }
                if stack.contains(v) {
                    let k = choose|k: int| 0 <= k < stack.len() && stack[k] == v;
                    assert(stack2[k] == v);
                }
            }
        }
    }
    (false, Ghost(fin_out), Ghost(counter_out))
}

/// Whether the dense graph `adj` has a cycle.
fn has_cycle_dense(adj: &Vec<Vec<usize>>) -> (r: bool)
    requires
        adj_wf(adj.deep_view()),
    ensures
        r == has_icycle(adj.deep_view()),
{
    let n = adj.len();
    let mut color: Vec<u8> = vec![0u8; n];
    let ghost mut fin: Seq<int> = Seq::new(n as nat, |i: int| 0);
    let ghost mut counter: int = 0;
    let ghost empty: Seq<int> = Seq::empty();
    proof {
        assert(color@ =~= Seq::new(n as nat, |i: int| 0u8));
    }
    let mut i: usize = 0;
    while i < n
        invariant
            n == adj.len(),
            adj_wf(adj.deep_view()),
            color.len() == n,
            i <= n,
            colors_ok(color@),
            grey_is_stack(color@, empty),
            black_closed(adj.deep_view(), color@, fin, counter),
            forall|j: int| 0 <= j < i ==> color@[j] == 2,
            empty == Seq::<int>::empty(),
        decreases n - i,
    {
        if color[i] == 0 {
            let ghost c_before = color@;
            let (found, f2, k2) = dfs(adj, i, &mut color, Ghost(empty), Ghost(fin), Ghost(counter));
            if found {
                return true;
            }
            proof {
                fin = f2@;
                counter = k2@;
                assert forall|j: int| 0 <= j < i + 1 implies color@[j] == 2 by {
                    if j < i {
                        assert(c_before[j] == 2);
                    }
                }
            }
        } else {
            assert(color@[i as int] != 1);
        }
        i = i + 1;
    }
    proof {
        lemma_no_icycle(adj.deep_view(), color@, fin, counter);
    }
    false
}

/// Index of the first name equal to `s`, if any.
fn position(names: &Vec<String>, s: &String) -> (r: Option<usize>)
    ensures
        r matches Some(j) ==> j < names.len() && names@[j as int]@ == s@,
        r is None ==> !names.deep_view().contains(s@),
{
    let n = names.len();
    for j in 0..n
        invariant
            n == names.len(),
            forall|k: int| 0 <= k < j ==> names@[k]@ != s@,
    {
        if names[j] == *s {
            return Some(j);
        }
    }
    proof {
        if names.deep_view().contains(s@) {
            let k = choose|k: int| 0 <= k < names.deep_view().len() && names.deep_view()[k] == s@;
            assert(names@[k]@ == s@);
        }
    }
    None
}

spec fn distinct(s: Seq<Seq<char>>) -> bool {
    forall|i: int, j: int| 0 <= i < s.len() && 0 <= j < s.len() && i != j ==> s[i] != s[j]
}

/// A table from keys to the lists recorded under them, in the order they
/// were recorded; keys are identified by their text.
struct EdgeTable {
    keys: Vec<String>,
    deps: Vec<Vec<String>>,
}

impl View for EdgeTable {
    type V = Adjacency;

    closed spec fn view(&self) -> Adjacency {
        self.adjacency()
    }
}

impl EdgeTable {
    /// The adjacency map that the graph stands for.
    closed spec fn adjacency(&self) -> Adjacency {
        Map::new(
            |k: Seq<char>| self.keys.deep_view().contains(k),
            |k: Seq<char>| self.deps.deep_view()[self.keys.deep_view().index_of(k)],
        )
    }

    /// Internal consistency: one dependency list per recorded path, and no
    /// path recorded twice.
    closed spec fn wf(&self) -> bool {
        &&& self.keys.len() == self.deps.len()
        &&& distinct(self.keys.deep_view())
    }

    proof fn lemma_entry(&self, i: int)
        requires
            self.wf(),
            0 <= i < self.keys.len(),
        ensures
            self@.contains_key(self.keys.deep_view()[i]),
            self@[self.keys.deep_view()[i]] == self.deps.deep_view()[i],
    {
        let kv = self.keys.deep_view();
        assert(kv.contains(kv[i]));
        let j = kv.index_of(kv[i]);
        assert(kv[j] == kv[i]);
    }

    /// Create an empty dependency graph.
    fn new() -> (g: Self)
        ensures
            g.wf(),
            g@ == Map::<Seq<char>, Seq<Seq<char>>>::empty(),
    {
        let g = EdgeTable { keys: Vec::new(), deps: Vec::new() };
        assert(g@ =~= Map::<Seq<char>, Seq<Seq<char>>>::empty());
        g
    }

    /// Record that the key `from` depends on the key `to`.
    fn record_edge(&mut self, from: String, to: String)
        requires
            old(self).wf(),
        ensures
            final(self).wf(),
            final(self)@ == with_edge(old(self)@, from@, to@),
    {
        let ghost old_self = *self;
        let ghost old_view = self@;
        let n = self.keys.len();
        let mut i: usize = 0;
        while i < n
            invariant
                n == self.keys.len(),
                i <= n,
                forall|j: int| 0 <= j < i ==> self.keys@[j]@ != from@,
            ensures
                i <= n,
                forall|j: int| 0 <= j < i ==> self.keys@[j]@ != from@,
                i < n ==> self.keys@[i as int]@ == from@,
            decreases n - i,
        {
            if self.keys[i] == from {
                break ;
            }
            i = i + 1;
        }
        if i < n {
            proof {
                old_self.lemma_entry(i as int);
            }
            let mut row: Vec<String> = Vec::new();
            self.deps.set_and_swap(i, &mut row);
            let ghost row_old = row.deep_view();
            row.push(to);
            self.deps.set_and_swap(i, &mut row);
            proof {
                assert(row_old == old_self.deps.deep_view()[i as int]);
                assert(self.deps.deep_view()[i as int] =~= row_old.push(to@));
                assert forall|k: int| 0 <= k < n && k != i implies self.deps.deep_view()[k]
                    == old_self.deps.deep_view()[k] by {
                    assert(self.deps@[k] == old_self.deps@[k]);
                }
                assert(self.keys.deep_view() == old_self.keys.deep_view());
                assert(self.wf());
                assert(self.keys.deep_view()[i as int] == from@);
                self.lemma_entry(i as int);
                let target = old_view.insert(from@, old_view[from@].push(to@));
                assert forall|key: Seq<char>| #[trigger] self@.contains_key(key) implies self@[key]
                    == target[key] by {
                    let j = self.keys.deep_view().index_of(key);
                    self.lemma_entry(j);
                    old_self.lemma_entry(j);
                }
                assert(self@.dom() =~= target.dom());
                assert(self@ =~= target);
            }
        } else {
            let ghost from_view = from@;
            self.keys.push(from);
            let mut row: Vec<String> = Vec::new();
            row.push(to);
            self.deps.push(row);
            proof {
                let kv = self.keys.deep_view();
                assert(kv =~= old_self.keys.deep_view().push(from_view));
                assert(!old_self.keys.deep_view().contains(from_view)) by {
                    if old_self.keys.deep_view().contains(from_view) {
                        let j = choose|j: int|
                            0 <= j < old_self.keys.deep_view().len()
                                && old_self.keys.deep_view()[j] == from_view;
                        assert(old_self.keys@[j]@ == from_view);
                    }
                }
                assert(distinct(kv));
                assert(self.deps.deep_view()[n as int] =~= seq![to@]);
                assert forall|key: Seq<char>| #[trigger] self@.contains_key(key) implies self@[key]
                    == old_view.insert(from_view, seq![to@])[key] by {
                    let j = kv.index_of(key);
                    self.lemma_entry(j);
                    if j < n {
                        old_self.lemma_entry(j);
                    }
                }
                assert forall|key: Seq<char>| #[trigger] old_view.contains_key(key) implies self@.contains_key(key) by {
                    let j = old_self.keys.deep_view().index_of(key);
                    assert(kv[j] == key);
                }
                let target = old_view.insert(from_view, seq![to@]);
                assert forall|key: Seq<char>| #[trigger] target.contains_key(key) implies self@.contains_key(key) by {
                    if key != from_view {
                        let j = old_self.keys.deep_view().index_of(key);
                        assert(kv[j] == key);
                    } else {
                        assert(kv[n as int] == key);
                    }
                }
                assert forall|key: Seq<char>| #[trigger] self@.contains_key(key) implies target.contains_key(key) by {
                    let j = kv.index_of(key);
                    if j < n {
                        assert(old_self.keys.deep_view()[j] == key);
                    }
                }
                assert(self@.dom() =~= target.dom());
                assert(self@ =~= target);
            }
        }
    }

    /// The dependencies recorded under the key `path`.
    fn deps_of_key(&self, path: &str) -> (r: Option<&Vec<String>>)
        requires
            self.wf(),
        ensures
            r is Some <==> self@.contains_key(path@),
            r matches Some(v) ==> v.deep_view() == self@[path@],
    {
        let p = String::from_str(path);
        let n = self.keys.len();
        for i in 0..n
            invariant
                n == self.keys.len(),
                self.wf(),
                p@ == path@,
                forall|j: int| 0 <= j < i ==> self.keys@[j]@ != path@,
        {
            if self.keys[i] == p {
                proof {
                    self.lemma_entry(i as int);
                }
                return Some(&self.deps[i]);
            }
        }
        proof {
            if self@.contains_key(path@) {
                let j = self.keys.deep_view().index_of(path@);
                assert(self.keys@[j]@ == path@);
            }
        }
        None
    }

    /// Numbers every path that occurs in the graph and gives the graph over
    /// those numbers.
    fn dense(&self) -> (res: (Vec<String>, Vec<Vec<usize>>))
        requires
            self.wf(),
        ensures
            distinct(res.0.deep_view()),
            res.1.len() == res.0.len(),
            adj_wf(res.1.deep_view()),
            forall|a: int, b: int|
                0 <= a < res.0.len() && 0 <= b < res.0.len() ==> (iedge(res.1.deep_view(), a, b)
                    <==> has_edge(self@, res.0.deep_view()[a], res.0.deep_view()[b])),
            forall|u: Seq<char>, v: Seq<char>|
                #[trigger] has_edge(self@, u, v) ==> res.0.deep_view().contains(u)
                    && res.0.deep_view().contains(v),
    {
        let nk = self.keys.len();
        let mut names: Vec<String> = Vec::new();
        for i in 0..nk
            invariant
                nk == self.keys.len(),
                names.len() == i,
                forall|j: int| 0 <= j < i ==> names@[j]@ == self.keys@[j]@,
        {
            names.push(self.keys[i].clone());
        }
        proof {
            assert(distinct(names.deep_view())) by {
                assert forall|x: int, y: int|
                    0 <= x < names.len() && 0 <= y < names.len() && x != y implies names.deep_view()[x]
                    != names.deep_view()[y] by {
                    assert(self.keys.deep_view()[x] != self.keys.deep_view()[y]);
                }
            }
        }
        let mut adj: Vec<Vec<usize>> = Vec::new();
        for i in 0..nk
            invariant
                nk == self.keys.len(),
                self.wf(),
                names.len() >= nk,
                forall|j: int| 0 <= j < nk ==> names@[j]@ == self.keys@[j]@,
                distinct(names.deep_view()),
                adj.len() == i,
                forall|a: int|
                    0 <= a < i ==> #[trigger] adj@[a].len() == self.deps@[a].len() && forall|t: int|
                        0 <= t < adj@[a].len() ==> #[trigger] adj@[a]@[t] < names.len()
                            && names@[adj@[a]@[t] as int]@ == self.deps@[a]@[t]@,
        {
            let src = &self.deps[i];
            let m = src.len();
            let mut row: Vec<usize> = Vec::new();
            for t in 0..m
                invariant
                    nk == self.keys.len(),
                    self.wf(),
                    i < nk,
                    src == self.deps@[i as int],
                    m == src.len(),
                    names.len() >= nk,
                    forall|j: int| 0 <= j < nk ==> names@[j]@ == self.keys@[j]@,
                    distinct(names.deep_view()),
                    adj.len() == i,
                    forall|a: int|
                        0 <= a < i ==> #[trigger] adj@[a].len() == self.deps@[a].len() && forall|
                            t2: int,
                        |
                            0 <= t2 < adj@[a].len() ==> #[trigger] adj@[a]@[t2] < names.len()
                                && names@[adj@[a]@[t2] as int]@ == self.deps@[a]@[t2]@,
                    row.len() == t,
                    forall|t2: int|
                        0 <= t2 < t ==> #[trigger] row@[t2] < names.len() && names@[row@[t2] as int]@
                            == src@[t2]@,
            {
                let d = &src[t];
                let j = match position(&names, d) {
                    Some(j) => j,
                    None => {
                        let ghost before = names.deep_view();
                        names.push(d.clone());
                        proof {
                            assert(names.deep_view() =~= before.push(d@));
                            assert(distinct(names.deep_view())) by {
                                assert forall|x: int, y: int|
                                    0 <= x < names.len() && 0 <= y < names.len() && x
                                        != y implies names.deep_view()[x] != names.deep_view()[y] by {
                                    if x < before.len() && y < before.len() {
                                    } else if x < before.len() {
                                        assert(before[x] == names.deep_view()[x]);
                                        assert(before.contains(before[x]));
                                    } else {
                                        assert(before[y] == names.deep_view()[y]);
                                        assert(before.contains(before[y]));
                                    }
                                }
                            }
                        }
                        names.len() - 1
                    },
                };
                row.push(j);
            }
            adj.push(row);
        }
        while adj.len() < names.len()
            invariant
                nk == self.keys.len(),
                self.wf(),
                names.len() >= nk,
                adj.len() >= nk,
                adj.len() <= names.len(),
                forall|j: int| 0 <= j < nk ==> names@[j]@ == self.keys@[j]@,
                distinct(names.deep_view()),
                forall|a: int|
                    0 <= a < nk ==> #[trigger] adj@[a].len() == self.deps@[a].len() && forall|t: int|
                        0 <= t < adj@[a].len() ==> #[trigger] adj@[a]@[t] < names.len()
                            && names@[adj@[a]@[t] as int]@ == self.deps@[a]@[t]@,
                forall|a: int| nk <= a < adj.len() ==> #[trigger] adj@[a].len() == 0,
            decreases names.len() - adj.len(),
        {
            adj.push(Vec::new());
        }
        proof {
            let g = adj.deep_view();
            let nv = names.deep_view();
            let kv = self.keys.deep_view();
            let dv = self.deps.deep_view();
            assert forall|a: int| 0 <= a < g.len() implies #[trigger] g[a] == adj@[a]@ by {
                assert(g[a] =~= adj@[a]@);
            }
            assert forall|a: int, t: int| 0 <= a < g.len() && 0 <= t < g[a].len() implies #[trigger] g[a][t]
                < g.len() by {
                assert(g[a] == adj@[a]@);
                if a < nk {
                    assert(adj@[a].len() == self.deps@[a].len());
                    assert(adj@[a]@[t] < names.len());
                } else {
                    assert(adj@[a].len() == 0);
                }
            }
            assert forall|a: int, b: int|
                0 <= a < names.len() && 0 <= b < names.len() implies (iedge(g, a, b) <==> has_edge(
                self@,
                nv[a],
                nv[b],
            )) by {
                assert(g[a] == adj@[a]@);
                if a < nk {
                    self.lemma_entry(a);
                    assert(nv[a] == kv[a]);
                    assert(adj@[a].len() == self.deps@[a].len());
                    assert(dv[a] =~= self.deps@[a]@.map_values(|x: String| x@));
                    if iedge(g, a, b) {
                        let t = choose|t: int| 0 <= t < g[a].len() && #[trigger] g[a][t] as int == b;
                        assert(adj@[a]@[t] < names.len());
                        assert(dv[a][t] == nv[b]);
                    }
                    if has_edge(self@, nv[a], nv[b]) {
                        let t = choose|t: int| 0 <= t < dv[a].len() && dv[a][t] == nv[b];
                        let x = adj@[a]@[t] as int;
                        assert(adj@[a]@[t] < names.len());
                        assert(nv[x] == nv[b]);
                        assert(g[a][t] as int == b);
                    }
                } else {
                    assert(adj@[a].len() == 0);
                    if kv.contains(nv[a]) {
                        let j = choose|j: int| 0 <= j < kv.len() && kv[j] == nv[a];
                        assert(nv[j] == kv[j]);
                    }
                    assert(!self@.contains_key(nv[a]));
                }
            }
            assert forall|u: Seq<char>, v: Seq<char>| #[trigger] has_edge(self@, u, v) implies nv.contains(
                u,
            ) && nv.contains(v) by {
                assert(kv.contains(u));
                let j = kv.index_of(u);
                self.lemma_entry(j);
                assert(nv[j] == u);
                assert(dv[j] =~= self.deps@[j]@.map_values(|x: String| x@));
                let t = choose|t: int| 0 <= t < dv[j].len() && dv[j][t] == v;
                assert(adj@[j].len() == self.deps@[j].len());
                let x = adj@[j]@[t] as int;
                assert(adj@[j]@[t] < names.len());
                assert(nv[x] == v);
            }
        }
        (names, adj)
    }

    /// Whether some model depends, directly or indirectly, on itself.
    fn has_cycle(&self) -> (r: bool)
        requires
            self.wf(),
        ensures
            r == has_cycle_in(self@),
    {
        let (names, adj) = self.dense();
        let r = has_cycle_dense(&adj);
        proof {
            let g = adj.deep_view();
            let nv = names.deep_view();
            if r {
                let p = choose|p: Seq<int>| is_icycle(g, p);
                let q = Seq::new(p.len(), |k: int| nv[p[k]]);
                assert forall|k: int| 0 <= k < q.len() - 1 implies #[trigger] walk_step(self@, q, k) by {
                    assert(istep(g, p, k));
                    let t = choose|t: int| 0 <= t < g[p[k]].len() && #[trigger] g[p[k]][t] as int == p[k + 1];
                    assert(g[p[k]][t] < g.len());
                }
                assert(is_cycle(self@, q));
            } else if has_cycle_in(self@) {
                let q = choose|q: Seq<Seq<char>>| is_cycle(self@, q);
                assert forall|k: int| 0 <= k < q.len() implies nv.contains(#[trigger] q[k]) by {
                    if k < q.len() - 1 {
                        assert(walk_step(self@, q, k));
                    } else {
                        assert(walk_step(self@, q, k - 1));
                    }
                }
                let p = Seq::new(q.len(), |k: int| nv.index_of(q[k]));
                assert forall|k: int| 0 <= k < p.len() - 1 implies #[trigger] istep(g, p, k) by {
                    assert(walk_step(self@, q, k));
                    assert(nv.contains(q[k]));
                    assert(nv.contains(q[k + 1]));
                }
                assert(is_icycle(g, p));
            }
        }
        r
    }
}

/// Dependency graph for models: for each model path, the paths it includes
/// or uses, in the order they were recorded.  Paths are compared by their
/// components, as `Path` compares them; the dependencies are kept as given.
pub struct DependencyGraph {
    /// The graph over path keys, which the cycle check walks.
    keyed: EdgeTable,
    /// The dependencies as given, under the key of the model.
    given: EdgeTable,
}

impl View for DependencyGraph {
    type V = Adjacency;

    /// The graph over path keys: each model's key mapped to the keys of its
    /// dependencies.
    open spec fn view(&self) -> Adjacency {
        self.keyed_graph()
    }
}

impl DependencyGraph {
    /// The graph over path keys.
    pub closed spec fn keyed_graph(&self) -> Adjacency {
        self.keyed@
    }

    /// The dependencies as they were given, under the key of each model.
    pub closed spec fn targets(&self) -> Adjacency {
        self.given@
    }

    /// Internal consistency: both tables are sound, record the same models,
    /// and the keyed graph holds the keys of the dependencies as given.
    pub closed spec fn wf(&self) -> bool {
        &&& self.keyed.wf()
        &&& self.given.wf()
        &&& self.keyed@.dom() == self.given@.dom()
        &&& forall|k: Seq<char>| #[trigger] self.keyed@.contains_key(k) ==> self.keyed@[k]
            == self.given@[k].map_values(|t: Seq<char>| path_key(t))
    }

    /// Create an empty dependency graph.
    pub fn new() -> (g: Self)
        ensures
            g.wf(),
            g@ == Map::<Seq<char>, Seq<Seq<char>>>::empty(),
            g.targets() == Map::<Seq<char>, Seq<Seq<char>>>::empty(),
    {
        DependencyGraph { keyed: EdgeTable::new(), given: EdgeTable::new() }
    }

    /// Record that `from` depends on `to`: `to` is kept as given, under the
    /// key of `from`; the keyed graph gains the edge between their keys.
    pub fn add_edge(&mut self, from: String, to: String)
        requires
            old(self).wf(),
        ensures
            final(self).wf(),
            final(self)@ == with_edge(old(self)@, path_key(from@), path_key(to@)),
            final(self).targets() == with_edge(old(self).targets(), path_key(from@), to@),
    {
        let from_key = path_key_of(from.as_str());
        let to_key = path_key_of(to.as_str());
        let ghost k = from_key@;
        let ghost old_keyed = self.keyed@;
        let ghost old_given = self.given@;
        self.keyed.record_edge(from_key.clone(), to_key);
        self.given.record_edge(from_key, to);
        proof {
            assert(self.keyed@.dom() =~= self.given@.dom());
            assert forall|q: Seq<char>| #[trigger] self.keyed@.contains_key(q) implies self.keyed@[q]
                == self.given@[q].map_values(|t: Seq<char>| path_key(t)) by {
                if q == k {
                    if old_keyed.contains_key(k) {
                        assert(self.given@[q].map_values(|t: Seq<char>| path_key(t)) =~= old_given[k].map_values(
                            |t: Seq<char>| path_key(t),
                        ).push(path_key(to@)));
                    } else {
                        assert(self.given@[q].map_values(|t: Seq<char>| path_key(t)) =~= seq![path_key(to@)]);
                    }
                }
            }
        }
    }

    /// The direct dependencies of `path`, as given, if it has any recorded.
    pub fn get_deps(&self, path: &str) -> (r: Option<&Vec<String>>)
        requires
            self.wf(),
        ensures
            r is Some <==> self.targets().contains_key(path_key(path@)),
            r matches Some(v) ==> v.deep_view() == self.targets()[path_key(path@)],
            r is Some <==> self@.contains_key(path_key(path@)),
            r matches Some(v) ==> v.deep_view().map_values(|t: Seq<char>| path_key(t))
                == self@[path_key(path@)],
    {
        let key = path_key_of(path);
        self.given.deps_of_key(key.as_str())
    }

    /// Whether some model depends, directly or indirectly, on itself.
    pub fn has_cycle(&self) -> (r: bool)
        requires
            self.wf(),
        ensures
            r == has_cycle_in(self@),
    {
        self.keyed.has_cycle()
    }
}

impl Default for DependencyGraph {
    fn default() -> (g: Self)
        ensures
            g.wf(),
            g@ == Map::<Seq<char>, Seq<Seq<char>>>::empty(),
            g.targets() == Map::<Seq<char>, Seq<Seq<char>>>::empty(),
    {
        Self::new()
    }
}

} // verus!
