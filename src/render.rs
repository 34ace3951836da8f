use vstd::prelude::*;

use crate::builder::{all_models, build_graph, holds_map, root_ids, vertex_map};
use crate::draw::{drawing_of, emit_drawing, kind_of, kinds_known, Drawing};
use crate::error::TopoError;
use crate::layout::{
    cycle_roots, layer_graph, layer_list, layering_of, lemma_height_le_visits, lemma_layer_list_from, lemma_walk_roots_same,
    same_targets, walk_roots, Layering,
};
use crate::model::{ids_view, RawTopology, RawVertex, SasDigraph, VertexModel};
use crate::resolve::{adj_matches, edges_known, has_vertex, lemma_adj_matches_wf, resolve_edges, resolve_ids};

verus! {

/// The layout of a graph: its adjacency by vertex position, the positions of
/// its roots, the layering, and the drawing.
pub struct Layout {
    pub adjacency: Vec<Vec<usize>>,
    pub roots: Vec<usize>,
    pub layering: Layering,
    pub drawing: Drawing,
}

/// Every root identifier names a vertex.
pub open spec fn roots_known(g: SasDigraph) -> bool {
    forall|i: int| 0 <= i < g.initiators.len() ==> #[trigger] has_vertex(g.vertices@, g.initiators@[i]@)
}

/// `rp` gives the positions of the roots of `g`, in root order.
pub open spec fn roots_match(g: SasDigraph, rp: Seq<usize>) -> bool {
    &&& rp.len() == g.initiators.len()
    &&& forall|i: int| 0 <= i < rp.len() ==> #[trigger] rp[i] < g.vertices.len() && g.vertices@[rp[i] as int].fmri@
        == g.initiators@[i]@
}

/// `lay` is the layout of `g`.
pub open spec fn layout_of(lay: Layout, g: SasDigraph) -> bool {
    &&& adj_matches(g.vertices@, lay.adjacency@)
    &&& roots_match(g, lay.roots@)
    &&& walk_roots(lay.adjacency@, lay.roots@, lay.roots@.len()) is Some
    &&& layering_of(lay.layering, walk_roots(lay.adjacency@, lay.roots@, lay.roots@.len()).unwrap())
    &&& kinds_known(g.vertices@, lay.layering.layers@)
    &&& drawing_of(lay.drawing, g.vertices@, lay.adjacency@, lay.layering)
}

/// The walks from the roots meet no cycle, make at most `u32::MAX` visits,
/// and visit only vertices of a known kind.
pub open spec fn layout_succeeds(g: SasDigraph, adj: Seq<Vec<usize>>, rp: Seq<usize>) -> bool {
    &&& walk_roots(adj, rp, rp.len()) is Some
    &&& walk_roots(adj, rp, rp.len()).unwrap().len() <= u32::MAX
    &&& forall|j: int|
        0 <= j < walk_roots(adj, rp, rp.len()).unwrap().len() ==> #[trigger] kind_of(
            g.vertices@[walk_roots(adj, rp, rp.len()).unwrap()[j].0 as int].name@,
        ) is Some
}

/// Lays out a built graph. Fails with `LookupFailure` when an edge or a root
/// names a missing vertex, with `CycleDetected` exactly when a walk from a
/// root meets a cycle, and with `MalformedInput` on a placed vertex of unknown
/// kind or a graph too large for the coordinate range.
pub fn layout_graph(g: &SasDigraph) -> (r: Result<Layout, TopoError>)
    requires
        g.wf(),
    ensures
        !(edges_known(g.vertices@) && roots_known(*g)) ==> r is Err && r->Err_0 is LookupFailure,
        r is Err && r->Err_0 is LookupFailure ==> !(edges_known(g.vertices@) && roots_known(*g)) && !has_vertex(
            g.vertices@,
            r->Err_0->LookupFailure_0@,
        ),
        r is Ok ==> layout_of(r->Ok_0, *g),
        edges_known(g.vertices@) && roots_known(*g) && g.vertices.len() < u32::MAX ==> forall|adj: Seq<Vec<usize>>, rp: Seq<usize>|
            adj_matches(g.vertices@, adj) && roots_match(*g, rp) ==> (#[trigger] walk_roots(adj, rp, rp.len()) is None <==> (
            r is Err && r->Err_0 is CycleDetected)),
        r is Err && r->Err_0 is CycleDetected ==> forall|adj: Seq<Vec<usize>>, rp: Seq<usize>|
            adj_matches(g.vertices@, adj) && roots_match(*g, rp) ==> r->Err_0 == TopoError::CycleDetected(
                #[trigger] cycle_roots(adj, rp, rp.len()),
            ),
        edges_known(g.vertices@) && roots_known(*g) && g.vertices.len() < u32::MAX && (forall|
            adj: Seq<Vec<usize>>,
            rp: Seq<usize>,
        | adj_matches(g.vertices@, adj) && roots_match(*g, rp) ==> #[trigger] layout_succeeds(*g, adj, rp)) ==> r is Ok,
{
    let adjacency = match resolve_edges(&g.vertices) {
        Ok(a) => a,
        Err(e) => {
            return Err(e);
        },
    };
    let roots = match resolve_ids(&g.vertices, &g.initiators) {
        Ok(p) => p,
        Err(e) => {
            return Err(e);
        },
    };
    proof {
        lemma_adj_matches_wf(g.vertices@, adjacency@);
    }
    if g.vertices.len() >= 0xffff_ffff {
        return Err(TopoError::MalformedInput(String::from_str("too many vertices")));
    }
    proof {
        assert forall|adj: Seq<Vec<usize>>, rp: Seq<usize>|
            adj_matches(g.vertices@, adj) && roots_match(*g, rp) implies #[trigger] walk_roots(adj, rp, rp.len())
            == walk_roots(adjacency@, roots@, roots@.len()) by {
            lemma_matches_unique(*g, adjacency@, adj, roots@, rp);
            lemma_walk_roots_same(adjacency@, adj, roots@, roots@.len());
        }
        assert forall|adj: Seq<Vec<usize>>, rp: Seq<usize>|
            adj_matches(g.vertices@, adj) && roots_match(*g, rp) implies #[trigger] cycle_roots(adj, rp, rp.len())
            == cycle_roots(adjacency@, roots@, roots@.len()) by {
            lemma_matches_unique(*g, adjacency@, adj, roots@, rp);
            lemma_walk_roots_same(adjacency@, adj, roots@, roots@.len());
        }
        assert(adj_matches(g.vertices@, adjacency@) && roots_match(*g, roots@));
        if forall|adj: Seq<Vec<usize>>, rp: Seq<usize>|
            adj_matches(g.vertices@, adj) && roots_match(*g, rp) ==> #[trigger] layout_succeeds(*g, adj, rp) {
            assert(layout_succeeds(*g, adjacency@, roots@));
        }
    }
    let layering = match layer_graph(&adjacency, &roots) {
        Ok(l) => l,
        Err(e) => {
            return Err(e);
        },
    };
    proof {
        let s = walk_roots(adjacency@, roots@, roots@.len()).unwrap();
        lemma_height_le_visits(layering, s);
        if layout_succeeds(*g, adjacency@, roots@) {
            assert forall|d: int, i: int|
                0 <= d < layering.layers@.len() && 0 <= i < layering.layers@[d]@.len() implies #[trigger] kind_of(
                g.vertices@[layering.layers@[d]@[i] as int].name@,
            ) is Some by {
                lemma_layer_list_from(s, (d + 1) as u32);
                assert(layering.layers@[d]@ == layer_list(s, (d + 1) as u32));
                let j = choose|j: int| 0 <= j < s.len() && s[j].0 == #[trigger] layer_list(s, (d + 1) as u32)[i];
                assert(kind_of(g.vertices@[s[j].0 as int].name@) is Some);
            }
        }
    }
    if layering.max_height > 0xffff_ffff {
        return Err(TopoError::MalformedInput(String::from_str("layer too long to draw")));
    }
    let drawing = emit_drawing(&g.vertices, &adjacency, &layering)?;
    Ok(Layout { adjacency, roots, layering, drawing })
}

proof fn lemma_matches_unique(g: SasDigraph, a: Seq<Vec<usize>>, b: Seq<Vec<usize>>, ra: Seq<usize>, rb: Seq<usize>)
    requires
        g.wf(),
        adj_matches(g.vertices@, a),
        adj_matches(g.vertices@, b),
        roots_match(g, ra),
        roots_match(g, rb),
    ensures
        same_targets(a, b),
        ra == rb,
{
    let vs = g.vertices@;
    assert forall|v: int| 0 <= v < a.len() implies #[trigger] a[v]@ == b[v]@ by {
        assert forall|k: int| 0 <= k < a[v]@.len() implies a[v]@[k] == b[v]@[k] by {
            assert(vs[a[v]@[k] as int].fmri@ == vs[b[v]@[k] as int].fmri@);
        }
        assert(a[v]@ =~= b[v]@);
    }
    assert forall|i: int| 0 <= i < ra.len() implies ra[i] == rb[i] by {
        assert(vs[ra[i] as int].fmri@ == vs[rb[i] as int].fmri@);
    }
    assert(ra =~= rb);
}

/// A built graph and its layout.
pub struct Rendering {
    pub graph: SasDigraph,
    pub layout: Layout,
}

/// `g` is the graph that the topology `topo` describes.
pub open spec fn graph_of(g: SasDigraph, topo: RawTopology) -> bool {
    &&& g.wf()
    &&& g.product_id == topo.product_id
    &&& g.nodename == topo.nodename
    &&& g.os_version == topo.os_version
    &&& g.timestamp == topo.timestamp
    &&& holds_map(g.vertices@, vertex_map(topo.vertices@))
    &&& ids_view(g.initiators@) == root_ids(topo.vertices@)
}

/// The downstream identifiers of a vertex (none for a leaf).
pub open spec fn model_edges(m: VertexModel) -> Seq<Seq<char>> {
    match m.outgoing_edges {
        Some(e) => e,
        None => Seq::empty(),
    }
}

/// Every edge of every vertex of the map names a vertex of the map.
pub open spec fn map_edges_known(m: Map<Seq<char>, VertexModel>) -> bool {
    forall|k: Seq<char>, j: int|
        #![trigger model_edges(m[k])[j]]
        m.contains_key(k) && 0 <= j < model_edges(m[k]).len() ==> m.contains_key(model_edges(m[k])[j])
}

proof fn lemma_edges_known_map(vs: Seq<crate::model::SasDigraphVertex>, m: Map<Seq<char>, VertexModel>)
    requires
        holds_map(vs, m),
    ensures
        edges_known(vs) == map_edges_known(m),
{
    assert forall|v: int| 0 <= v < vs.len() implies #[trigger] crate::resolve::edge_ids(vs[v]) == model_edges(m[vs[v].fmri@]) by {
        assert(m[vs[v].fmri@] == vs[v]@);
    }
    if edges_known(vs) {
        assert forall|k: Seq<char>, j: int|
            m.contains_key(k) && 0 <= j < model_edges(m[k]).len() implies m.contains_key(#[trigger] model_edges(m[k])[j]) by {
            let i = choose|i: int| 0 <= i < vs.len() && #[trigger] vs[i].fmri@ == k;
            assert(crate::resolve::edge_ids(vs[i]) == model_edges(m[k]));
            assert(has_vertex(vs, crate::resolve::edge_ids(vs[i])[j]));
            let t = choose|t: int| 0 <= t < vs.len() && #[trigger] vs[t].fmri@ == model_edges(m[k])[j];
            assert(m.contains_key(vs[t].fmri@));
        }
    }
    if map_edges_known(m) {
        assert forall|v: int, j: int|
            0 <= v < vs.len() && 0 <= j < crate::resolve::edge_ids(vs[v]).len() implies has_vertex(
            vs,
            #[trigger] crate::resolve::edge_ids(vs[v])[j],
        ) by {
            let k = vs[v].fmri@;
            assert(m.contains_key(k));
            assert(model_edges(m[k])[j] == crate::resolve::edge_ids(vs[v])[j]);
            assert(m.contains_key(model_edges(m[k])[j]));
        }
    }
}

proof fn lemma_roots_in_map(raws: Seq<RawVertex>, i: int)
    requires
        0 <= i < root_ids(raws).len(),
    ensures
        vertex_map(raws).contains_key(root_ids(raws)[i]),
    decreases raws.len(),
{
    if raws.len() > 0 {
        let pre = raws.drop_last();
        if raws.last().name@ == crate::builder::INITIATOR@ && i == root_ids(pre).len() {
        } else {
            lemma_roots_in_map(pre, i);
        }
    }
}

/// Builds the graph of a parsed topology and lays it out.
pub fn render(topo: &RawTopology) -> (r: Result<Rendering, TopoError>)
    ensures
        !all_models(topo.vertices@) ==> r is Err && r->Err_0 is MalformedInput,
        r is Ok ==> graph_of(r->Ok_0.graph, *topo) && layout_of(r->Ok_0.layout, r->Ok_0.graph),
        all_models(topo.vertices@) && !map_edges_known(vertex_map(topo.vertices@)) ==> r is Err && r->Err_0 is LookupFailure,
        r is Err && r->Err_0 is LookupFailure ==> !map_edges_known(vertex_map(topo.vertices@)) && !vertex_map(
            topo.vertices@,
        ).contains_key(r->Err_0->LookupFailure_0@),
        all_models(topo.vertices@) && map_edges_known(vertex_map(topo.vertices@)) && (forall|g: SasDigraph| #[trigger]
            graph_of(g, *topo) ==> g.vertices.len() < u32::MAX && forall|adj: Seq<Vec<usize>>, rp: Seq<usize>|
                adj_matches(g.vertices@, adj) && roots_match(g, rp) ==> #[trigger] layout_succeeds(g, adj, rp)) ==> r is Ok,
{
    let graph = build_graph(topo)?;
    proof {
        let m = vertex_map(topo.vertices@);
        lemma_edges_known_map(graph.vertices@, m);
        assert forall|i: int| 0 <= i < graph.initiators.len() implies #[trigger] has_vertex(
            graph.vertices@,
            graph.initiators@[i]@,
        ) by {
            assert(ids_view(graph.initiators@)[i] == graph.initiators@[i]@);
            lemma_roots_in_map(topo.vertices@, i);
            assert(m.contains_key(graph.initiators@[i]@));
        }
    }
    assert(graph_of(graph, *topo));
    let layout = match layout_graph(&graph) {
        Ok(l) => l,
        Err(e) => {
            proof {
                if e is LookupFailure {
                    assert(!has_vertex(graph.vertices@, e->LookupFailure_0@));
                    assert(!vertex_map(topo.vertices@).contains_key(e->LookupFailure_0@));
                }
            }
            return Err(e);
        },
    };
    Ok(Rendering { graph, layout })
}

} // verus!
