use vstd::prelude::*;

use crate::error::TopoError;

verus! {

/// Number of `false` entries in `s`: the vertices still free to enter the active path.
pub open spec fn count_false(s: Seq<bool>) -> nat
    decreases s.len(),
{
    if s.len() == 0 {
        0
    } else {
        count_false(s.drop_last()) + if s.last() {
            0nat
        } else {
            1nat
        }
    }
}

/// Every edge of an adjacency list names a vertex of the same list.
pub open spec fn adj_wf(adj: Seq<Vec<usize>>) -> bool {
    forall|v: int, k: int|
        0 <= v < adj.len() && 0 <= k < adj[v]@.len() ==> #[trigger] adj[v]@[k] < adj.len()
}

/// The visits of a depth-first pre-order walk entered at `v` with incoming depth
/// `depth`; `on` marks the vertices of the active path. Each visit is a vertex and
/// its layer (incoming depth plus one). `None` when the walk meets a vertex of its
/// own active path, i.e. a cycle.
pub open spec fn walk(adj: Seq<Vec<usize>>, v: usize, depth: u32, on: Seq<bool>, fuel: nat) -> Option<
    Seq<(usize, u32)>,
>
    decreases fuel, 0nat,
{
    if fuel == 0 || on[v as int] {
        None
    } else {
        match walk_edges(
            adj,
            adj[v as int]@,
            adj[v as int]@.len(),
            (depth + 1) as u32,
            on.update(v as int, true),
            (fuel - 1) as nat,
        ) {
            Some(rest) => Some(seq![(v, (depth + 1) as u32)] + rest),
            None => None,
        }
    }
}

/// The walks from the first `k` targets of `es`, one after the other.
pub open spec fn walk_edges(
    adj: Seq<Vec<usize>>,
    es: Seq<usize>,
    k: nat,
    depth: u32,
    on: Seq<bool>,
    fuel: nat,
) -> Option<Seq<(usize, u32)>>
    decreases fuel, k,
{
    if k == 0 {
        Some(Seq::empty())
    } else {
        match walk_edges(adj, es, (k - 1) as nat, depth, on, fuel) {
            Some(a) => match walk(adj, es[k - 1], depth, on, fuel) {
                Some(b) => Some(a + b),
                None => None,
            },
            None => None,
        }
    }
}

/// The vertex at which the walk from `v` comes back to a vertex of its own
/// active path: the first vertex, in walking order, found already on the path.
/// It names the cycle when `walk` is `None`.
pub open spec fn cycle_vertex(adj: Seq<Vec<usize>>, v: usize, depth: u32, on: Seq<bool>, fuel: nat) -> usize
    decreases fuel, 0nat,
{
    if fuel == 0 || on[v as int] {
        v
    } else {
        cycle_vertex_edges(
            adj,
            adj[v as int]@,
            adj[v as int]@.len(),
            (depth + 1) as u32,
            on.update(v as int, true),
            (fuel - 1) as nat,
        )
    }
}

/// The vertex at which the first failing walk among the first `k` targets of `es`
/// comes back to its active path.
pub open spec fn cycle_vertex_edges(
    adj: Seq<Vec<usize>>,
    es: Seq<usize>,
    k: nat,
    depth: u32,
    on: Seq<bool>,
    fuel: nat,
) -> usize
    decreases fuel, k,
{
    if k == 0 {
        0
    } else if walk_edges(adj, es, (k - 1) as nat, depth, on, fuel) is None {
        cycle_vertex_edges(adj, es, (k - 1) as nat, depth, on, fuel)
    } else {
        cycle_vertex(adj, es[k - 1], depth, on, fuel)
    }
}

/// An active path on which no vertex stands yet.
pub open spec fn no_path(n: nat) -> Seq<bool> {
    Seq::new(n, |i: int| false)
}

/// The walks from the first `k` roots, in root order, each from depth zero.
pub open spec fn walk_roots(adj: Seq<Vec<usize>>, roots: Seq<usize>, k: nat) -> Option<
    Seq<(usize, u32)>,
>
    decreases k,
{
    if k == 0 {
        Some(Seq::empty())
    } else {
        match walk_roots(adj, roots, (k - 1) as nat) {
            Some(a) => match walk(adj, roots[k - 1], 0, no_path(adj.len()), adj.len()) {
                Some(b) => Some(a + b),
                None => None,
            },
            None => None,
        }
    }
}

/// The vertex at which the first failing walk among the first `k` roots comes
/// back to its active path.
pub open spec fn cycle_roots(adj: Seq<Vec<usize>>, roots: Seq<usize>, k: nat) -> usize
    decreases k,
{
    if k == 0 {
        0
    } else if walk_roots(adj, roots, (k - 1) as nat) is None {
        cycle_roots(adj, roots, (k - 1) as nat)
    } else {
        cycle_vertex(adj, roots[k - 1], 0, no_path(adj.len()), adj.len())
    }
}

/// The deepest layer among the visits (zero for none).
pub open spec fn max_layer(s: Seq<(usize, u32)>) -> u32
    decreases s.len(),
{
    if s.len() == 0 {
        0
    } else {
        let m = max_layer(s.drop_last());
        if s.last().1 > m {
            s.last().1
        } else {
            m
        }
    }
}

/// The vertices visited in layer `d`, in visiting order, repeats included.
pub open spec fn layer_list(s: Seq<(usize, u32)>, d: u32) -> Seq<usize>
    decreases s.len(),
{
    if s.len() == 0 {
        Seq::empty()
    } else if s.last().1 == d {
        layer_list(s.drop_last(), d).push(s.last().0)
    } else {
        layer_list(s.drop_last(), d)
    }
}

/// The greatest length among the layers (zero for none).
pub open spec fn max_len(layers: Seq<Vec<usize>>) -> nat
    decreases layers.len(),
{
    if layers.len() == 0 {
        0
    } else {
        let m = max_len(layers.drop_last());
        if layers.last()@.len() > m {
            layers.last()@.len()
        } else {
            m
        }
    }
}

proof fn lemma_count_false_update(s: Seq<bool>, i: int)
    requires
        0 <= i < s.len(),
        !s[i],
    ensures
        count_false(s.update(i, true)) + 1 == count_false(s),
    decreases s.len(),
{
    if i == s.len() - 1 {
        assert(s.update(i, true).drop_last() =~= s.drop_last());
    } else {
        lemma_count_false_update(s.drop_last(), i);
        assert(s.update(i, true).drop_last() =~= s.drop_last().update(i, true));
    }
}

proof fn lemma_count_false_none(n: nat)
    ensures
        count_false(no_path(n)) == n,
    decreases n,
{
    if n > 0 {
        lemma_count_false_none((n - 1) as nat);
        assert(no_path(n).drop_last() =~= no_path((n - 1) as nat));
    }
}

proof fn lemma_max_layer_concat(a: Seq<(usize, u32)>, b: Seq<(usize, u32)>)
    ensures
        max_layer(a + b) == if max_layer(a) > max_layer(b) {
            max_layer(a)
        } else {
            max_layer(b)
        },
    decreases b.len(),
{
    if b.len() == 0 {
        assert(a + b =~= a);
    } else {
        lemma_max_layer_concat(a, b.drop_last());
        assert((a + b).drop_last() =~= a + b.drop_last());
    }
}

proof fn lemma_walk_edges_none(
    adj: Seq<Vec<usize>>,
    es: Seq<usize>,
    k: nat,
    j: nat,
    depth: u32,
    on: Seq<bool>,
    fuel: nat,
)
    requires
        k <= j,
        walk_edges(adj, es, k, depth, on, fuel) is None,
    ensures
        walk_edges(adj, es, j, depth, on, fuel) is None,
    decreases j,
{
    if k < j {
        lemma_walk_edges_none(adj, es, k, (j - 1) as nat, depth, on, fuel);
    }
}

proof fn lemma_cycle_edges_stable(
    adj: Seq<Vec<usize>>,
    es: Seq<usize>,
    k: nat,
    j: nat,
    depth: u32,
    on: Seq<bool>,
    fuel: nat,
)
    requires
        k <= j,
        walk_edges(adj, es, k, depth, on, fuel) is None,
    ensures
        cycle_vertex_edges(adj, es, j, depth, on, fuel) == cycle_vertex_edges(adj, es, k, depth, on, fuel),
    decreases j,
{
    if k < j {
        lemma_walk_edges_none(adj, es, k, (j - 1) as nat, depth, on, fuel);
        lemma_cycle_edges_stable(adj, es, k, (j - 1) as nat, depth, on, fuel);
    }
}

proof fn lemma_cycle_roots_stable(adj: Seq<Vec<usize>>, roots: Seq<usize>, k: nat, j: nat)
    requires
        k <= j,
        walk_roots(adj, roots, k) is None,
    ensures
        cycle_roots(adj, roots, j) == cycle_roots(adj, roots, k),
    decreases j,
{
    if k < j {
        lemma_walk_roots_none(adj, roots, k, (j - 1) as nat);
        lemma_cycle_roots_stable(adj, roots, k, (j - 1) as nat);
    }
}

proof fn lemma_walk_roots_none(adj: Seq<Vec<usize>>, roots: Seq<usize>, k: nat, j: nat)
    requires
        k <= j,
        walk_roots(adj, roots, k) is None,
    ensures
        walk_roots(adj, roots, j) is None,
    decreases j,
{
    if k < j {
        lemma_walk_roots_none(adj, roots, k, (j - 1) as nat);
    }
}

/// Visits `v` at incoming depth `depth` and, depth first, everything below it,
/// appending each visit to `visits`; returns the deepest layer reached.
pub fn visit_vertex(
    adj: &Vec<Vec<usize>>,
    v: usize,
    depth: u32,
    on_path: &mut Vec<bool>,
    visits: &mut Vec<(usize, u32)>,
) -> (r: Result<u32, TopoError>)
    requires
        adj_wf(adj@),
        v < adj.len(),
        adj.len() < u32::MAX,
        old(on_path).len() == adj.len(),
        depth + count_false(old(on_path)@) <= adj.len(),
    ensures
        match walk(adj@, v, depth, old(on_path)@, count_false(old(on_path)@)) {
            Some(s) => r == Ok::<u32, TopoError>(max_layer(s)) && final(visits)@ == old(visits)@ + s
                && final(on_path)@ == old(on_path)@,
            None => r == Err::<u32, TopoError>(
                TopoError::CycleDetected(cycle_vertex(adj@, v, depth, old(on_path)@, count_false(old(on_path)@))),
            ),
        },
    decreases count_false(old(on_path)@),
{
    if on_path[v] {
        return Err(TopoError::CycleDetected(v));
    }
    proof {
        lemma_count_false_update(on_path@, v as int);
    }
    let ghost on0 = on_path@;
    let ghost fuel1 = (count_false(on0) - 1) as nat;
    let layer: u32 = depth + 1;
    visits.push((v, layer));
    on_path.set(v, true);
    let ghost on1 = on_path@;
    assert(on1 =~= on0.update(v as int, true));
    let ghost base = visits@;
    let ghost es = adj@[v as int]@;
    let n_edges = adj[v].len();
    let mut max_depth: u32 = layer;
    let mut k: usize = 0;
    while k < n_edges
        invariant
            adj_wf(adj@),
            v < adj.len(),
            adj.len() < u32::MAX,
            n_edges == es.len(),
            es == adj@[v as int]@,
            k <= n_edges,
            on_path@ == on1,
            on1.len() == adj.len(),
            count_false(on1) == fuel1,
            fuel1 + 1 == count_false(on0),
            on0 == old(on_path)@,
            !on0[v as int],
            on1 == on0.update(v as int, true),
            layer == (depth + 1) as u32,
            layer + fuel1 <= adj.len(),
            walk_edges(adj@, es, k as nat, layer, on1, fuel1) is Some,
            visits@ == base + walk_edges(adj@, es, k as nat, layer, on1, fuel1).unwrap(),
            max_depth == if layer > max_layer(walk_edges(adj@, es, k as nat, layer, on1, fuel1).unwrap()) {
                layer
            } else {
                max_layer(walk_edges(adj@, es, k as nat, layer, on1, fuel1).unwrap())
            },
        decreases n_edges - k,
    {
        let w = adj[v][k];
        let ghost before = visits@;
        let ghost acc = walk_edges(adj@, es, k as nat, layer, on1, fuel1).unwrap();
        let rc = visit_vertex(adj, w, layer, on_path, visits);
        match rc {
            Ok(d) => {
                proof {
                    let b = walk(adj@, w, layer, on1, fuel1).unwrap();
                    lemma_max_layer_concat(acc, b);
                    assert(walk_edges(adj@, es, (k + 1) as nat, layer, on1, fuel1) == Some(acc + b));
                    assert(visits@ =~= base + (acc + b));
                }
                if d > max_depth {
                    max_depth = d;
                }
            },
            Err(e) => {
                proof {
                    assert(walk_edges(adj@, es, (k + 1) as nat, layer, on1, fuel1) is None);
                    lemma_walk_edges_none(adj@, es, (k + 1) as nat, n_edges as nat, layer, on1, fuel1);
                    lemma_cycle_edges_stable(adj@, es, (k + 1) as nat, n_edges as nat, layer, on1, fuel1);
                    assert(cycle_vertex_edges(adj@, es, (k + 1) as nat, layer, on1, fuel1) == cycle_vertex(adj@, w, layer, on1, fuel1));
                    assert(walk(adj@, v, depth, on0, count_false(on0)) is None);
                }
                return Err(e);
            },
        }
        k = k + 1;
    }
    on_path.set(v, false);
    proof {
        assert(on_path@ =~= on0);
        let rest = walk_edges(adj@, es, n_edges as nat, layer, on1, fuel1).unwrap();
        lemma_max_layer_concat(seq![(v, layer)], rest);
        assert(seq![(v, layer)].drop_last() =~= Seq::<(usize, u32)>::empty());
        assert(max_layer(Seq::<(usize, u32)>::empty()) == 0);
        assert(seq![(v, layer)].last() == (v, layer));
        assert(max_layer(seq![(v, layer)]) == layer);
        assert(max_layer(seq![(v, layer)] + rest) == max_depth);
        assert(base =~= old(visits)@ + seq![(v, layer)]);
        assert(visits@ =~= old(visits)@ + (seq![(v, layer)] + rest));
        assert(walk(adj@, v, depth, on0, count_false(on0)) == Some(seq![(v, layer)] + rest));
    }
    Ok(max_depth)
}

proof fn lemma_walk_valid(adj: Seq<Vec<usize>>, v: usize, depth: u32, on: Seq<bool>, fuel: nat)
    requires
        adj_wf(adj),
        v < adj.len(),
    ensures
        walk(adj, v, depth, on, fuel) is Some ==> forall|j: int|
            0 <= j < walk(adj, v, depth, on, fuel).unwrap().len() ==> #[trigger] walk(
                adj,
                v,
                depth,
                on,
                fuel,
            ).unwrap()[j].0 < adj.len(),
    decreases fuel, 0nat,
{
    if fuel > 0 && !on[v as int] {
        let es = adj[v as int]@;
        assert forall|j: int| 0 <= j < es.len() implies #[trigger] es[j] < adj.len() by {
            assert(adj[v as int]@[j] < adj.len());
        }
        lemma_walk_edges_valid(adj, es, es.len(), (depth + 1) as u32, on.update(v as int, true), (fuel - 1) as nat);
    }
}

proof fn lemma_walk_edges_valid(
    adj: Seq<Vec<usize>>,
    es: Seq<usize>,
    k: nat,
    depth: u32,
    on: Seq<bool>,
    fuel: nat,
)
    requires
        adj_wf(adj),
        k <= es.len(),
        forall|j: int| 0 <= j < es.len() ==> #[trigger] es[j] < adj.len(),
    ensures
        walk_edges(adj, es, k, depth, on, fuel) is Some ==> forall|j: int|
            0 <= j < walk_edges(adj, es, k, depth, on, fuel).unwrap().len() ==> #[trigger] walk_edges(
                adj,
                es,
                k,
                depth,
                on,
                fuel,
            ).unwrap()[j].0 < adj.len(),
    decreases fuel, k,
{
    if k > 0 {
        lemma_walk_edges_valid(adj, es, (k - 1) as nat, depth, on, fuel);
        lemma_walk_valid(adj, es[k - 1], depth, on, fuel);
    }
}

proof fn lemma_walk_roots_valid(adj: Seq<Vec<usize>>, roots: Seq<usize>, k: nat)
    requires
        adj_wf(adj),
        k <= roots.len(),
        forall|i: int| 0 <= i < roots.len() ==> #[trigger] roots[i] < adj.len(),
    ensures
        walk_roots(adj, roots, k) is Some ==> forall|j: int|
            0 <= j < walk_roots(adj, roots, k).unwrap().len() ==> #[trigger] walk_roots(
                adj,
                roots,
                k,
            ).unwrap()[j].0 < adj.len(),
    decreases k,
{
    if k > 0 {
        lemma_walk_roots_valid(adj, roots, (k - 1) as nat);
        lemma_walk_valid(adj, roots[k - 1], 0, no_path(adj.len()), adj.len());
    }
}

proof fn lemma_max_len(layers: Seq<Vec<usize>>, d: int)
    requires
        0 <= d < layers.len(),
    ensures
        layers[d]@.len() <= max_len(layers),
    decreases layers.len(),
{
    if d < layers.len() - 1 {
        lemma_max_len(layers.drop_last(), d);
    }
}

/// The number of vertices on the longest path that starts at `v`, counting
/// at most `fuel` vertices.
pub open spec fn path_len(adj: Seq<Vec<usize>>, v: usize, fuel: nat) -> nat
    decreases fuel, 0nat,
{
    if fuel == 0 {
        0
    } else {
        1 + path_len_edges(adj, adj[v as int]@, adj[v as int]@.len(), (fuel - 1) as nat)
    }
}

/// The longest of the paths that start at the first `k` targets of `es`.
pub open spec fn path_len_edges(adj: Seq<Vec<usize>>, es: Seq<usize>, k: nat, fuel: nat) -> nat
    decreases fuel, k,
{
    if k == 0 {
        0
    } else {
        let a = path_len_edges(adj, es, (k - 1) as nat, fuel);
        let b = path_len(adj, es[k - 1], fuel);
        if a > b {
            a
        } else {
            b
        }
    }
}

/// The longest path, in vertices, that starts at one of the first `k` roots.
pub open spec fn longest_from_roots(adj: Seq<Vec<usize>>, roots: Seq<usize>, k: nat) -> nat
    decreases k,
{
    if k == 0 {
        0
    } else {
        let a = longest_from_roots(adj, roots, (k - 1) as nat);
        let b = path_len(adj, roots[k - 1], adj.len());
        if a > b {
            a
        } else {
            b
        }
    }
}

proof fn lemma_walk_depth(adj: Seq<Vec<usize>>, v: usize, depth: u32, on: Seq<bool>, fuel: nat)
    requires
        walk(adj, v, depth, on, fuel) is Some,
        depth + fuel <= u32::MAX,
    ensures
        fuel > 0,
        max_layer(walk(adj, v, depth, on, fuel).unwrap()) == depth + path_len(adj, v, fuel),
    decreases fuel, 0nat,
{
    let es = adj[v as int]@;
    let on1 = on.update(v as int, true);
    let d1 = (depth + 1) as u32;
    let f1 = (fuel - 1) as nat;
    lemma_walk_edges_depth(adj, es, es.len(), d1, on1, f1);
    let rest = walk_edges(adj, es, es.len(), d1, on1, f1).unwrap();
    lemma_max_layer_concat(seq![(v, d1)], rest);
    assert(seq![(v, d1)].drop_last() =~= Seq::<(usize, u32)>::empty());
    assert(max_layer(Seq::<(usize, u32)>::empty()) == 0);
    assert(max_layer(seq![(v, d1)]) == d1);
}

#[verifier::spinoff_prover]
proof fn lemma_walk_edges_depth(adj: Seq<Vec<usize>>, es: Seq<usize>, k: nat, depth: u32, on: Seq<bool>, fuel: nat)
    requires
        walk_edges(adj, es, k, depth, on, fuel) is Some,
        depth + fuel <= u32::MAX,
    ensures
        max_layer(walk_edges(adj, es, k, depth, on, fuel).unwrap()) == if k == 0 {
            0
        } else {
            depth + path_len_edges(adj, es, k, fuel)
        },
    decreases fuel, k,
{
    if k > 0 {
        lemma_walk_edges_depth(adj, es, (k - 1) as nat, depth, on, fuel);
        lemma_walk_depth(adj, es[k - 1], depth, on, fuel);
        let a = walk_edges(adj, es, (k - 1) as nat, depth, on, fuel).unwrap();
        let b = walk(adj, es[k - 1], depth, on, fuel).unwrap();
        lemma_max_layer_concat(a, b);
        assert(walk_edges(adj, es, k, depth, on, fuel).unwrap() == a + b);
        let pa = path_len_edges(adj, es, (k - 1) as nat, fuel);
        let pb = path_len(adj, es[k - 1], fuel);
        assert(path_len_edges(adj, es, k, fuel) == if pa > pb {
            pa
        } else {
            pb
        });
        assert(max_layer(b) == depth + pb);
        assert(pb >= 1);
        if k == 1 {
            assert(a =~= Seq::<(usize, u32)>::empty());
            assert(max_layer(a) == 0);
            assert(pa == 0);
        } else {
            assert(max_layer(a) == depth + pa);
        }
    } else {
        assert(max_layer(Seq::<(usize, u32)>::empty()) == 0);
    }
}

/// When no walk from the roots meets a cycle, the deepest layer of the walks is
/// the number of vertices on the longest path that starts at a root.
pub proof fn lemma_max_depth_is_longest_path(adj: Seq<Vec<usize>>, roots: Seq<usize>, k: nat)
    requires
        adj.len() < u32::MAX,
        walk_roots(adj, roots, k) is Some,
    ensures
        max_layer(walk_roots(adj, roots, k).unwrap()) == longest_from_roots(adj, roots, k),
    decreases k,
{
    if k > 0 {
        lemma_max_depth_is_longest_path(adj, roots, (k - 1) as nat);
        lemma_walk_depth(adj, roots[k - 1], 0, no_path(adj.len()), adj.len());
        let a = walk_roots(adj, roots, (k - 1) as nat).unwrap();
        let b = walk(adj, roots[k - 1], 0, no_path(adj.len()), adj.len()).unwrap();
        lemma_max_layer_concat(a, b);
    }
}

/// `adj` is a single chain: each vertex but the last has the next one as its only target.
pub open spec fn is_chain(adj: Seq<Vec<usize>>) -> bool {
    &&& adj.len() > 0
    &&& forall|i: int| 0 <= i < adj.len() - 1 ==> #[trigger] adj[i]@ == seq![(i + 1) as usize]
    &&& adj[adj.len() - 1]@.len() == 0
}

/// The visits of a chain of `m` vertices walked from its head: vertex `j` in layer `j + 1`.
pub open spec fn chain_visits(m: nat) -> Seq<(usize, u32)> {
    Seq::new(m, |j: int| (j as usize, (j + 1) as u32))
}

proof fn lemma_chain_walk(adj: Seq<Vec<usize>>, i: nat, on: Seq<bool>)
    requires
        is_chain(adj),
        i < adj.len(),
        adj.len() < u32::MAX,
        on.len() == adj.len(),
        forall|j: int| i <= j < adj.len() ==> !#[trigger] on[j],
    ensures
        walk(adj, i as usize, i as u32, on, (adj.len() - i) as nat) == Some(
            Seq::new((adj.len() - i) as nat, |j: int| ((i + j) as usize, (i + j + 1) as u32)),
        ),
    decreases adj.len() - i,
{
    let n = adj.len();
    let on1 = on.update(i as int, true);
    let es = adj[i as int]@;
    let want = Seq::new((n - i) as nat, |j: int| ((i + j) as usize, (i + j + 1) as u32));
    if i + 1 < n {
        lemma_chain_walk(adj, i + 1, on1);
        assert(es == seq![(i + 1) as usize]);
        let w = walk(adj, (i + 1) as usize, (i + 1) as u32, on1, (n - i - 1) as nat).unwrap();
        assert(walk_edges(adj, es, 0, (i + 1) as u32, on1, (n - i - 1) as nat) == Some(Seq::<(usize, u32)>::empty()));
        assert(walk_edges(adj, es, 1, (i + 1) as u32, on1, (n - i - 1) as nat) == Some(
            Seq::<(usize, u32)>::empty() + w,
        ));
        assert(want =~= seq![(i as usize, (i + 1) as u32)] + (Seq::<(usize, u32)>::empty() + w));
    } else {
        assert(es.len() == 0);
        assert(want =~= seq![(i as usize, (i + 1) as u32)] + Seq::<(usize, u32)>::empty());
    }
}

proof fn lemma_chain_layer_list(m: nat, d: u32)
    requires
        m < u32::MAX,
    ensures
        layer_list(chain_visits(m), d) == if 1 <= d <= m {
            seq![(d - 1) as usize]
        } else {
            Seq::<usize>::empty()
        },
    decreases m,
{
    if m > 0 {
        lemma_chain_layer_list((m - 1) as nat, d);
        assert(chain_visits(m).drop_last() =~= chain_visits((m - 1) as nat));
        if d == m {
            assert(Seq::<usize>::empty().push((d - 1) as usize) =~= seq![(d - 1) as usize]);
        }
    }
}

proof fn lemma_max_len_ones(layers: Seq<Vec<usize>>)
    requires
        layers.len() > 0,
        forall|d: int| 0 <= d < layers.len() ==> #[trigger] layers[d]@.len() == 1,
    ensures
        max_len(layers) == 1,
    decreases layers.len(),
{
    if layers.len() > 1 {
        lemma_max_len_ones(layers.drop_last());
    } else {
        assert(max_len(layers.drop_last()) == 0);
    }
}

/// A single root at the head of a chain of `N` vertices: the walk visits the
/// chain in order, so layers `1..N` each hold exactly one vertex (vertex `d - 1`
/// in layer `d`), the deepest layer is `N`, and the longest layer holds one.
pub proof fn lemma_chain_layering(adj: Seq<Vec<usize>>, l: Layering)
    requires
        is_chain(adj),
        adj.len() < u32::MAX,
    ensures
        walk_roots(adj, seq![0usize], 1) == Some(chain_visits(adj.len())),
        layering_of(l, chain_visits(adj.len())) ==> {
            &&& l.max_depth == adj.len()
            &&& forall|d: int| 0 <= d < l.layers.len() ==> #[trigger] l.layers[d]@ == seq![d as usize]
            &&& l.max_height == 1
        },
{
    let n = adj.len();
    lemma_chain_walk(adj, 0, no_path(n));
    let w = walk(adj, 0, 0, no_path(n), n).unwrap();
    assert(w =~= chain_visits(n));
    assert(walk_roots(adj, seq![0usize], 0) == Some(Seq::<(usize, u32)>::empty()));
    assert(Seq::<(usize, u32)>::empty() + w =~= w);
    lemma_chain_max_layer(n);
    if layering_of(l, chain_visits(n)) {
        assert forall|d: int| 0 <= d < l.layers.len() implies #[trigger] l.layers[d]@ == seq![d as usize] by {
            lemma_chain_layer_list(n, (d + 1) as u32);
        }
        assert forall|d: int| 0 <= d < l.layers.len() implies #[trigger] l.layers@[d]@.len() == 1 by {
            lemma_chain_layer_list(n, (d + 1) as u32);
        }
        lemma_max_len_ones(l.layers@);
    }
}

proof fn lemma_chain_max_layer(m: nat)
    requires
        m < u32::MAX,
    ensures
        max_layer(chain_visits(m)) == m,
    decreases m,
{
    if m > 0 {
        lemma_chain_max_layer((m - 1) as nat);
        assert(chain_visits(m).drop_last() =~= chain_visits((m - 1) as nat));
    }
}

/// Two adjacency lists with the same targets everywhere.
pub open spec fn same_targets(a: Seq<Vec<usize>>, b: Seq<Vec<usize>>) -> bool {
    a.len() == b.len() && forall|v: int| 0 <= v < a.len() ==> #[trigger] a[v]@ == b[v]@
}

proof fn lemma_walk_same(a: Seq<Vec<usize>>, b: Seq<Vec<usize>>, v: usize, depth: u32, on: Seq<bool>, fuel: nat)
    requires
        same_targets(a, b),
        v < a.len(),
        adj_wf(a),
    ensures
        walk(a, v, depth, on, fuel) == walk(b, v, depth, on, fuel),
        cycle_vertex(a, v, depth, on, fuel) == cycle_vertex(b, v, depth, on, fuel),
    decreases fuel, 0nat,
{
    if fuel > 0 && !on[v as int] {
        let es = a[v as int]@;
        assert forall|j: int| 0 <= j < es.len() implies #[trigger] es[j] < a.len() by {
            assert(a[v as int]@[j] < a.len());
        }
        lemma_walk_edges_same(a, b, es, es.len(), (depth + 1) as u32, on.update(v as int, true), (fuel - 1) as nat);
    }
}

proof fn lemma_walk_edges_same(
    a: Seq<Vec<usize>>,
    b: Seq<Vec<usize>>,
    es: Seq<usize>,
    k: nat,
    depth: u32,
    on: Seq<bool>,
    fuel: nat,
)
    requires
        same_targets(a, b),
        adj_wf(a),
        k <= es.len(),
        forall|j: int| 0 <= j < es.len() ==> #[trigger] es[j] < a.len(),
    ensures
        walk_edges(a, es, k, depth, on, fuel) == walk_edges(b, es, k, depth, on, fuel),
        cycle_vertex_edges(a, es, k, depth, on, fuel) == cycle_vertex_edges(b, es, k, depth, on, fuel),
    decreases fuel, k,
{
    if k > 0 {
        lemma_walk_edges_same(a, b, es, (k - 1) as nat, depth, on, fuel);
        lemma_walk_same(a, b, es[k - 1], depth, on, fuel);
    }
}

/// Walks from the roots depend only on the targets of each vertex.
pub proof fn lemma_walk_roots_same(a: Seq<Vec<usize>>, b: Seq<Vec<usize>>, roots: Seq<usize>, k: nat)
    requires
        same_targets(a, b),
        adj_wf(a),
        k <= roots.len(),
        forall|i: int| 0 <= i < roots.len() ==> #[trigger] roots[i] < a.len(),
    ensures
        walk_roots(a, roots, k) == walk_roots(b, roots, k),
        cycle_roots(a, roots, k) == cycle_roots(b, roots, k),
    decreases k,
{
    if k > 0 {
        lemma_walk_roots_same(a, b, roots, (k - 1) as nat);
        lemma_walk_same(a, b, roots[k - 1], 0, no_path(a.len()), a.len());
    }
}

/// Every vertex of a layer was visited, and no layer is longer than the visits.
pub proof fn lemma_layer_list_from(s: Seq<(usize, u32)>, d: u32)
    ensures
        layer_list(s, d).len() <= s.len(),
        forall|i: int| 0 <= i < layer_list(s, d).len() ==> exists|j: int| 0 <= j < s.len() && s[j].0 == #[trigger] layer_list(s, d)[i],
    decreases s.len(),
{
    if s.len() > 0 {
        let pre = s.drop_last();
        lemma_layer_list_from(pre, d);
        assert forall|i: int| 0 <= i < layer_list(s, d).len() implies exists|j: int| 0 <= j < s.len() && s[j].0 == #[trigger] layer_list(s, d)[i] by {
            if i < layer_list(pre, d).len() {
                assert(layer_list(s, d)[i] == layer_list(pre, d)[i]);
                let j = choose|j: int| 0 <= j < pre.len() && pre[j].0 == #[trigger] layer_list(pre, d)[i];
                assert(s[j] == pre[j]);
            } else {
                assert(layer_list(s, d)[i] == s[s.len() - 1].0);
            }
        }
    }
}

proof fn lemma_max_len_le(layers: Seq<Vec<usize>>, b: nat)
    requires
        forall|d: int| 0 <= d < layers.len() ==> #[trigger] layers[d]@.len() <= b,
    ensures
        max_len(layers) <= b,
    decreases layers.len(),
{
    if layers.len() > 0 {
        lemma_max_len_le(layers.drop_last(), b);
    }
}

/// The longest layer of a layering holds no more vertices than were visited.
pub proof fn lemma_height_le_visits(l: Layering, s: Seq<(usize, u32)>)
    requires
        layering_of(l, s),
    ensures
        l.max_height <= s.len(),
{
    assert forall|d: int| 0 <= d < l.layers.len() implies #[trigger] l.layers@[d]@.len() <= s.len() by {
        lemma_layer_list_from(s, (d + 1) as u32);
    }
    lemma_max_len_le(l.layers@, s.len());
}

/// `rank` strictly decreases along every edge: the graph has no cycle.
pub open spec fn ranked(adj: Seq<Vec<usize>>, rank: Seq<nat>) -> bool {
    &&& rank.len() == adj.len()
    &&& adj_wf(adj)
    &&& forall|v: int, k: int|
        0 <= v < adj.len() && 0 <= k < adj[v]@.len() ==> rank[#[trigger] adj[v]@[k] as int] < rank[v]
}

proof fn lemma_count_false_pos(s: Seq<bool>, i: int)
    requires
        0 <= i < s.len(),
        !s[i],
    ensures
        count_false(s) >= 1,
{
    lemma_count_false_update(s, i);
}

proof fn lemma_walk_acyclic(adj: Seq<Vec<usize>>, rank: Seq<nat>, v: usize, depth: u32, on: Seq<bool>)
    requires
        ranked(adj, rank),
        v < adj.len(),
        on.len() == adj.len(),
        forall|u: int| 0 <= u < on.len() && #[trigger] on[u] ==> rank[u] > rank[v as int],
    ensures
        walk(adj, v, depth, on, count_false(on)) is Some,
    decreases count_false(on), 0nat,
{
    lemma_count_false_pos(on, v as int);
    lemma_count_false_update(on, v as int);
    let on1 = on.update(v as int, true);
    let es = adj[v as int]@;
    assert forall|j: int| 0 <= j < es.len() implies #[trigger] es[j] < adj.len() && forall|u: int|
        0 <= u < on1.len() && #[trigger] on1[u] ==> rank[u] > rank[es[j] as int] by {
        assert(rank[adj[v as int]@[j] as int] < rank[v as int]);
    }
    lemma_walk_edges_acyclic(adj, rank, es, es.len(), (depth + 1) as u32, on1);
}

proof fn lemma_walk_edges_acyclic(adj: Seq<Vec<usize>>, rank: Seq<nat>, es: Seq<usize>, k: nat, depth: u32, on: Seq<bool>)
    requires
        ranked(adj, rank),
        k <= es.len(),
        on.len() == adj.len(),
        forall|j: int| 0 <= j < es.len() ==> #[trigger] es[j] < adj.len() && forall|u: int|
            0 <= u < on.len() && #[trigger] on[u] ==> rank[u] > rank[es[j] as int],
    ensures
        walk_edges(adj, es, k, depth, on, count_false(on)) is Some,
    decreases count_false(on), k,
{
    if k > 0 {
        lemma_walk_edges_acyclic(adj, rank, es, (k - 1) as nat, depth, on);
        assert(es[k - 1] < adj.len());
        lemma_walk_acyclic(adj, rank, es[k - 1], depth, on);
    }
}

/// From any vertex of a graph without cycles, with an empty active path, the
/// walk succeeds and reaches layer `depth` plus the number of vertices on the
/// longest path that starts at the vertex.
pub proof fn lemma_acyclic_walk(adj: Seq<Vec<usize>>, rank: Seq<nat>, v: usize, depth: u32)
    requires
        ranked(adj, rank),
        v < adj.len(),
        depth + adj.len() <= u32::MAX,
    ensures
        walk(adj, v, depth, no_path(adj.len()), adj.len()) is Some,
        max_layer(walk(adj, v, depth, no_path(adj.len()), adj.len()).unwrap()) == depth + path_len(adj, v, adj.len()),
{
    lemma_count_false_none(adj.len());
    lemma_walk_acyclic(adj, rank, v, depth, no_path(adj.len()));
    lemma_walk_depth(adj, v, depth, no_path(adj.len()), adj.len());
}

/// In a graph without cycles (some ranking of the vertices strictly decreases
/// along every edge), the walks from the roots all succeed, and the deepest
/// layer is the number of vertices on the longest path from a root.
pub proof fn lemma_acyclic_layering(adj: Seq<Vec<usize>>, rank: Seq<nat>, roots: Seq<usize>, k: nat)
    requires
        ranked(adj, rank),
        adj.len() < u32::MAX,
        k <= roots.len(),
        forall|i: int| 0 <= i < roots.len() ==> #[trigger] roots[i] < adj.len(),
    ensures
        walk_roots(adj, roots, k) is Some,
        max_layer(walk_roots(adj, roots, k).unwrap()) == longest_from_roots(adj, roots, k),
    decreases k,
{
    if k > 0 {
        lemma_acyclic_layering(adj, rank, roots, (k - 1) as nat);
        let n = adj.len();
        lemma_count_false_none(n);
        assert(roots[k - 1] < n);
        lemma_walk_acyclic(adj, rank, roots[k - 1], 0, no_path(n));
    }
    lemma_max_depth_is_longest_path(adj, roots, k);
}

/// Outcome of layering a graph: the deepest layer, the length of the longest layer,
/// and for each layer `d` (from 1) at index `d - 1` the vertices visited there.
pub struct Layering {
    pub max_depth: u32,
    pub max_height: usize,
    pub layers: Vec<Vec<usize>>,
}

/// `l` is the layering that the visits `s` determine.
pub open spec fn layering_of(l: Layering, s: Seq<(usize, u32)>) -> bool {
    &&& l.max_depth == max_layer(s)
    &&& l.layers.len() == l.max_depth
    &&& forall|d: int| 0 <= d < l.layers.len() ==> #[trigger] l.layers[d]@ == layer_list(s, (d + 1) as u32)
    &&& l.max_height == max_len(l.layers@)
}

/// Each layer holds vertices of a graph of `n` vertices, and none is longer than `max_height`.
pub open spec fn layering_wf(l: Layering, n: nat) -> bool {
    &&& l.layers.len() == l.max_depth
    &&& forall|d: int, i: int|
        0 <= d < l.layers.len() && 0 <= i < l.layers[d]@.len() ==> #[trigger] l.layers[d]@[i] < n
    &&& forall|d: int| 0 <= d < l.layers.len() ==> #[trigger] l.layers[d]@.len() <= l.max_height
}

/// Walks the graph from every root in root order and groups the visits by layer.
/// Fails with `CycleDetected` when some walk returns to a vertex of its active path.
pub fn layer_graph(adj: &Vec<Vec<usize>>, roots: &Vec<usize>) -> (r: Result<Layering, TopoError>)
    requires
        adj_wf(adj@),
        adj.len() < u32::MAX,
        forall|i: int| 0 <= i < roots.len() ==> #[trigger] roots@[i] < adj.len(),
    ensures
        match walk_roots(adj@, roots@, roots@.len()) {
            Some(s) => r is Ok && layering_of(r->Ok_0, s),
            None => r == Err::<Layering, TopoError>(TopoError::CycleDetected(cycle_roots(adj@, roots@, roots@.len()))),
        },
        r is Ok ==> layering_wf(r->Ok_0, adj.len() as nat),
{
    let n = adj.len();
    let mut on_path: Vec<bool> = Vec::new();
    let mut i: usize = 0;
    while i < n
        invariant
            i <= n,
            on_path@ == no_path(i as nat),
        decreases n - i,
    {
        on_path.push(false);
        i = i + 1;
        assert(on_path@ =~= no_path(i as nat));
    }
    proof {
        lemma_count_false_none(n as nat);
    }
    let mut visits: Vec<(usize, u32)> = Vec::new();
    let mut max_depth: u32 = 0;
    let mut k: usize = 0;
    while k < roots.len()
        invariant
            adj_wf(adj@),
            n == adj.len(),
            n < u32::MAX,
            forall|i: int| 0 <= i < roots.len() ==> #[trigger] roots@[i] < adj.len(),
            k <= roots.len(),
            on_path@ == no_path(n as nat),
            count_false(on_path@) == n,
            walk_roots(adj@, roots@, k as nat) is Some,
            visits@ == walk_roots(adj@, roots@, k as nat).unwrap(),
            max_depth == max_layer(visits@),
        decreases roots.len() - k,
    {
        let ghost acc = visits@;
        let rc = visit_vertex(adj, roots[k], 0, &mut on_path, &mut visits);
        match rc {
            Ok(d) => {
                proof {
                    let b = walk(adj@, roots@[k as int], 0, no_path(n as nat), n as nat).unwrap();
                    lemma_max_layer_concat(acc, b);
                    assert(walk_roots(adj@, roots@, (k + 1) as nat) == Some(acc + b));
                }
                if d > max_depth {
                    max_depth = d;
                }
            },
            Err(e) => {
                proof {
                    assert(walk_roots(adj@, roots@, (k + 1) as nat) is None);
                    lemma_walk_roots_none(adj@, roots@, (k + 1) as nat, roots@.len());
                    lemma_cycle_roots_stable(adj@, roots@, (k + 1) as nat, roots@.len());
                }
                return Err(e);
            },
        }
        k = k + 1;
    }
    let ghost s = visits@;
    proof {
        assert(roots@.take(roots.len() as int) =~= roots@);
        lemma_walk_roots_valid(adj@, roots@, roots@.len());
    }
    let mut layers: Vec<Vec<usize>> = Vec::new();
    let mut d: u32 = 0;
    while d < max_depth
        invariant
            d <= max_depth,
            layers.len() == d,
            forall|j: int| 0 <= j < d ==> #[trigger] layers[j]@ == Seq::<usize>::empty(),
        decreases max_depth - d,
    {
        layers.push(Vec::new());
        d = d + 1;
    }
    let mut j: usize = 0;
    while j < visits.len()
        invariant
            s == visits@,
            j <= visits.len(),
            layers.len() == max_depth,
            forall|e: int| 0 <= e < max_depth ==> #[trigger] layers[e]@ == layer_list(s.take(j as int), (e + 1) as u32),
            forall|q: int| 0 <= q < s.len() ==> #[trigger] s[q].0 < n,
            forall|e: int, i: int|
                0 <= e < layers.len() && 0 <= i < layers[e]@.len() ==> #[trigger] layers[e]@[i] < n,
        decreases visits.len() - j,
    {
        let (v, l) = visits[j];
        proof {
            assert(s.take(j + 1).drop_last() =~= s.take(j as int));
        }
        if 1 <= l && l <= max_depth {
            let mut cur: Vec<usize> = Vec::new();
            std::mem::swap(&mut cur, &mut layers[(l - 1) as usize]);
            cur.push(v);
            layers.set((l - 1) as usize, cur);
        }
        j = j + 1;
    }
    assert(s.take(s.len() as int) =~= s);
    let mut max_height: usize = 0;
    let mut e: usize = 0;
    while e < layers.len()
        invariant
            e <= layers.len(),
            max_height == max_len(layers@.take(e as int)),
        decreases layers.len() - e,
    {
        proof {
            assert(layers@.take(e + 1).drop_last() =~= layers@.take(e as int));
        }
        if layers[e].len() > max_height {
            max_height = layers[e].len();
        }
        e = e + 1;
    }
    assert(layers@.take(layers.len() as int) =~= layers@);
    assert forall|d: int| 0 <= d < layers.len() implies #[trigger] layers[d]@.len() <= max_height by {
        lemma_max_len(layers@, d);
    }
    Ok(Layering { max_depth, max_height, layers })
}

} // verus!
