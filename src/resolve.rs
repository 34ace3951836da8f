use vstd::prelude::*;

use crate::builder::find_vertex;
use crate::error::TopoError;
use crate::layout::adj_wf;
use crate::model::{ids_view, SasDigraphVertex};

verus! {

/// The identifiers of a vertex's downstream vertices (none for a leaf).
pub open spec fn edge_ids(v: SasDigraphVertex) -> Seq<Seq<char>> {
    match v.outgoing_edges {
        Some(e) => ids_view(e@),
        None => Seq::empty(),
    }
}

/// Some vertex of `vs` has identifier `f`.
pub open spec fn has_vertex(vs: Seq<SasDigraphVertex>, f: Seq<char>) -> bool {
    exists|j: int| 0 <= j < vs.len() && #[trigger] vs[j].fmri@ == f
}

/// Every edge of every vertex names a vertex of the graph.
pub open spec fn edges_known(vs: Seq<SasDigraphVertex>) -> bool {
    forall|v: int, k: int|
        0 <= v < vs.len() && 0 <= k < edge_ids(vs[v]).len() ==> has_vertex(vs, #[trigger] edge_ids(vs[v])[k])
}

/// `adj` gives, for each vertex, the positions of its edge targets in edge order.
pub open spec fn adj_matches(vs: Seq<SasDigraphVertex>, adj: Seq<Vec<usize>>) -> bool {
    &&& adj.len() == vs.len()
    &&& forall|v: int| 0 <= v < vs.len() ==> #[trigger] adj[v]@.len() == edge_ids(vs[v]).len()
    &&& forall|v: int, k: int|
        0 <= v < vs.len() && 0 <= k < adj[v]@.len() ==> #[trigger] adj[v]@[k] < vs.len() && vs[adj[v]@[k] as int].fmri@
            == edge_ids(vs[v])[k]
}

pub proof fn lemma_adj_matches_wf(vs: Seq<SasDigraphVertex>, adj: Seq<Vec<usize>>)
    requires
        adj_matches(vs, adj),
    ensures
        adj_wf(adj),
{
}

/// Positions of the vertices named by `ids`, or `LookupFailure` naming the
/// first identifier that no vertex has.
pub fn resolve_ids(vs: &Vec<SasDigraphVertex>, ids: &Vec<String>) -> (r: Result<Vec<usize>, TopoError>)
    ensures
        (forall|i: int| 0 <= i < ids.len() ==> #[trigger] has_vertex(vs@, ids@[i]@)) ==> r is Ok && {
            let p = r->Ok_0;
            &&& p.len() == ids.len()
            &&& forall|i: int| 0 <= i < p.len() ==> #[trigger] p@[i] < vs.len() && vs@[p@[i] as int].fmri@ == ids@[i]@
        },
        !(forall|i: int| 0 <= i < ids.len() ==> #[trigger] has_vertex(vs@, ids@[i]@)) ==> r is Err
            && r->Err_0 is LookupFailure,
        r is Err ==> r->Err_0 is LookupFailure && !has_vertex(vs@, r->Err_0->LookupFailure_0@) && exists|i: int|
            0 <= i < ids.len() && #[trigger] ids@[i]@ == r->Err_0->LookupFailure_0@,
{
    let mut out: Vec<usize> = Vec::new();
    let mut i: usize = 0;
    while i < ids.len()
        invariant
            i <= ids.len(),
            out.len() == i,
            forall|j: int| 0 <= j < i ==> #[trigger] out@[j] < vs.len() && vs@[out@[j] as int].fmri@ == ids@[j]@,
            forall|j: int| 0 <= j < i ==> #[trigger] has_vertex(vs@, ids@[j]@),
        decreases ids.len() - i,
    {
        match find_vertex(vs, ids[i].as_str()) {
            Some(k) => {
                out.push(k);
                assert(has_vertex(vs@, ids@[i as int]@));
            },
            None => {
                assert(!has_vertex(vs@, ids@[i as int]@));
                let missing = ids[i].clone();
                assert(ids@[i as int]@ == missing@);
                return Err(TopoError::LookupFailure(missing));
            },
        }
        i = i + 1;
    }
    Ok(out)
}

/// The adjacency lists of the graph by vertex position, or `LookupFailure`
/// when an edge names an identifier that no vertex has.
pub fn resolve_edges(vs: &Vec<SasDigraphVertex>) -> (r: Result<Vec<Vec<usize>>, TopoError>)
    ensures
        edges_known(vs@) ==> r is Ok && adj_matches(vs@, r->Ok_0@),
        !edges_known(vs@) ==> r is Err && r->Err_0 is LookupFailure,
        r is Err ==> r->Err_0 is LookupFailure && !has_vertex(vs@, r->Err_0->LookupFailure_0@) && exists|v: int, k: int|
            0 <= v < vs.len() && 0 <= k < edge_ids(vs@[v]).len() && #[trigger] edge_ids(vs@[v])[k]
                == r->Err_0->LookupFailure_0@,
{
    let mut adj: Vec<Vec<usize>> = Vec::new();
    let mut v: usize = 0;
    while v < vs.len()
        invariant
            v <= vs.len(),
            adj.len() == v,
            forall|u: int| 0 <= u < v ==> #[trigger] adj@[u]@.len() == edge_ids(vs@[u]).len(),
            forall|u: int, k: int|
                0 <= u < v && 0 <= k < adj@[u]@.len() ==> #[trigger] adj@[u]@[k] < vs.len() && vs@[adj@[u]@[k] as int].fmri@
                    == edge_ids(vs@[u])[k],
            forall|u: int, k: int|
                0 <= u < v && 0 <= k < edge_ids(vs@[u]).len() ==> has_vertex(vs@, #[trigger] edge_ids(vs@[u])[k]),
        decreases vs.len() - v,
    {
        let targets = match &vs[v].outgoing_edges {
            Some(e) => match resolve_ids(vs, e) {
                Ok(t) => t,
                Err(err) => {
                    proof {
                        let i = choose|i: int| 0 <= i < e.len() && !#[trigger] has_vertex(vs@, e@[i]@);
                        assert(edge_ids(vs@[v as int])[i] == e@[i]@);
                        let j = choose|j: int| 0 <= j < e.len() && #[trigger] e@[j]@ == err->LookupFailure_0@;
                        assert(edge_ids(vs@[v as int])[j] == e@[j]@);
                    }
                    return Err(err);
                },
            },
            None => Vec::new(),
        };
        adj.push(targets);
        v = v + 1;
    }
    Ok(adj)
}

} // verus!
