use vstd::prelude::*;

use crate::builder::INITIATOR;
use crate::error::TopoError;
use crate::layout::{adj_wf, layering_wf, Layering};
use crate::model::{SasDigraphVertex, SasGeometry};
use crate::text::{malformed_text, str_eq};

verus! {

pub const PORT: &'static str = "port";

pub const EXPANDER: &'static str = "expander";

pub const TARGET: &'static str = "target";

/// Side length of a vertex's square node.
pub const VTX_SIZE: u64 = 120;

/// Horizontal distance between two layers.
pub const X_SPACING: u64 = 250;

/// Vertical distance between two rows of a layer.
pub const Y_SPACING: u64 = 150;

pub const X_MARGIN: u64 = 50;

pub const Y_MARGIN: u64 = 10;

/// Length of the connector that leaves a vertex's right edge.
pub const EXIT_LEN: u64 = 50;

/// The four kinds of fabric component.
#[derive(Clone, Copy, PartialEq, Eq, Structural, Debug)]
pub enum VertexKind {
    Initiator,
    Port,
    Expander,
    Target,
}

/// The kind that a vertex's kind name denotes.
pub open spec fn kind_of(name: Seq<char>) -> Option<VertexKind> {
    if name == INITIATOR@ {
        Some(VertexKind::Initiator)
    } else if name == PORT@ {
        Some(VertexKind::Port)
    } else if name == EXPANDER@ {
        Some(VertexKind::Expander)
    } else if name == TARGET@ {
        Some(VertexKind::Target)
    } else {
        None
    }
}

pub fn vertex_kind(name: &str) -> (r: Option<VertexKind>)
    ensures
        r == kind_of(name@),
{
    if str_eq(name, INITIATOR) {
        Some(VertexKind::Initiator)
    } else if str_eq(name, PORT) {
        Some(VertexKind::Port)
    } else if str_eq(name, EXPANDER) {
        Some(VertexKind::Expander)
    } else if str_eq(name, TARGET) {
        Some(VertexKind::Target)
    } else {
        None
    }
}

/// The icon image of each kind, relative to the output directory.
pub open spec fn icon_of(k: VertexKind) -> Seq<char> {
    match k {
        VertexKind::Initiator => "assets/icons/initiator.png"@,
        VertexKind::Port => "assets/icons/port.png"@,
        VertexKind::Expander => "assets/icons/expander.png"@,
        VertexKind::Target => "assets/icons/target.png"@,
    }
}

pub fn icon_path(k: VertexKind) -> (r: &'static str)
    ensures
        r@ == icon_of(k),
{
    match k {
        VertexKind::Initiator => "assets/icons/initiator.png",
        VertexKind::Port => "assets/icons/port.png",
        VertexKind::Expander => "assets/icons/expander.png",
        VertexKind::Target => "assets/icons/target.png",
    }
}

/// A drawing primitive: a vertex's node image, or a straight connector segment.
#[derive(Clone, Copy, PartialEq, Eq, Structural, Debug)]
pub enum Primitive {
    Node { vertex: usize, kind: VertexKind, x: u64, y: u64, width: u64, height: u64 },
    Connector { x1: u64, y1: u64, x2: u64, y2: u64 },
}

/// The x coordinate of layer index `d` (layer `d + 1`).
pub open spec fn x_of(d: int) -> int {
    d * 250 + 50
}

/// The vertical spacing factor of row index `i` in a layer of `len` vertices.
pub open spec fn y_factor(i: int, len: int, mh: int) -> int {
    if i == 0 {
        1
    } else {
        mh / len
    }
}

/// The y coordinate of row index `i` in a layer of `len` vertices, the longest
/// layer having `mh`.
pub open spec fn y_of(i: int, len: int, mh: int) -> int {
    i * 150 * y_factor(i, len, mh) + 10
}

/// The node of the vertex at row `i` of layer index `d`.
pub open spec fn node_at(vs: Seq<SasDigraphVertex>, layers: Seq<Vec<usize>>, mh: nat, d: int, i: int) -> Primitive {
    let v = layers[d]@[i];
    Primitive::Node {
        vertex: v,
        kind: kind_of(vs[v as int].name@).unwrap(),
        x: x_of(d) as u64,
        y: y_of(i, layers[d]@.len() as int, mh as int) as u64,
        width: 120,
        height: 120,
    }
}

/// The nodes of the first `k` rows of layer index `d`.
pub open spec fn layer_nodes(vs: Seq<SasDigraphVertex>, layers: Seq<Vec<usize>>, mh: nat, d: int, k: nat) -> Seq<
    Primitive,
> {
    Seq::new(k, |i: int| node_at(vs, layers, mh, d, i))
}

/// The nodes of the first `d` layers, layer by layer.
pub open spec fn nodes_upto(vs: Seq<SasDigraphVertex>, layers: Seq<Vec<usize>>, mh: nat, d: nat) -> Seq<Primitive>
    decreases d,
{
    if d == 0 {
        Seq::empty()
    } else {
        nodes_upto(vs, layers, mh, (d - 1) as nat) + layer_nodes(
            vs,
            layers,
            mh,
            d - 1,
            layers[d - 1]@.len(),
        )
    }
}

/// Every vertex in the layers has a known kind.
pub open spec fn kinds_known(vs: Seq<SasDigraphVertex>, layers: Seq<Vec<usize>>) -> bool {
    forall|d: int, i: int|
        0 <= d < layers.len() && 0 <= i < layers[d]@.len() ==> #[trigger] kind_of(vs[layers[d]@[i] as int].name@) is Some
}

/// The geometry after drawing the node `p`.
pub open spec fn place(geo: Seq<SasGeometry>, p: Primitive) -> Seq<SasGeometry> {
    match p {
        Primitive::Node { vertex, x, y, width, height, .. } => geo.update(
            vertex as int,
            SasGeometry { x, y, width, height },
        ),
        _ => geo,
    }
}

/// The geometry after drawing `ps` in order: a vertex drawn twice keeps its last place.
pub open spec fn placed(geo: Seq<SasGeometry>, ps: Seq<Primitive>) -> Seq<SasGeometry>
    decreases ps.len(),
{
    if ps.len() == 0 {
        geo
    } else {
        place(placed(geo, ps.drop_last()), ps.last())
    }
}

/// Geometry of `n` vertices before placement.
pub open spec fn unplaced(n: nat) -> Seq<SasGeometry> {
    Seq::new(n, |i: int| SasGeometry { x: 0, y: 0, width: 0, height: 0 })
}

/// The connector that leaves the right edge of a node at `g`.
pub open spec fn exit_line(g: SasGeometry) -> Primitive {
    Primitive::Connector {
        x1: (g.x + 120) as u64,
        y1: (g.y + 60) as u64,
        x2: (g.x + 170) as u64,
        y2: (g.y + 60) as u64,
    }
}

/// The vertical then horizontal connector from the exit of `g` into the left edge of `t`.
pub open spec fn route(g: SasGeometry, t: SasGeometry) -> Seq<Primitive> {
    seq![
        Primitive::Connector {
            x1: (g.x + 170) as u64,
            y1: (g.y + 60) as u64,
            x2: (g.x + 170) as u64,
            y2: (t.y + 60) as u64,
        },
        Primitive::Connector { x1: (g.x + 170) as u64, y1: (t.y + 60) as u64, x2: t.x, y2: (t.y + 60) as u64 },
    ]
}

/// The routes from `v` to its first `k` edge targets.
pub open spec fn routes(geo: Seq<SasGeometry>, v: usize, es: Seq<usize>, k: nat) -> Seq<Primitive>
    decreases k,
{
    if k == 0 {
        Seq::empty()
    } else {
        routes(geo, v, es, (k - 1) as nat) + route(geo[v as int], geo[es[k - 1] as int])
    }
}

/// The connectors of vertex `v` with edge targets `es`: none for no edges.
pub open spec fn vertex_connectors(geo: Seq<SasGeometry>, v: usize, es: Seq<usize>) -> Seq<Primitive> {
    if es.len() == 0 {
        Seq::empty()
    } else {
        seq![exit_line(geo[v as int])] + routes(geo, v, es, es.len())
    }
}

/// The connectors of the first `k` rows of layer index `d`.
pub open spec fn layer_connectors(
    geo: Seq<SasGeometry>,
    adj: Seq<Vec<usize>>,
    layers: Seq<Vec<usize>>,
    d: int,
    k: nat,
) -> Seq<Primitive>
    decreases k,
{
    if k == 0 {
        Seq::empty()
    } else {
        let v = layers[d]@[k - 1];
        layer_connectors(geo, adj, layers, d, (k - 1) as nat) + vertex_connectors(geo, v, adj[v as int]@)
    }
}

/// The connectors of the first `d` layers, layer by layer.
pub open spec fn connectors_upto(geo: Seq<SasGeometry>, adj: Seq<Vec<usize>>, layers: Seq<Vec<usize>>, d: nat) -> Seq<
    Primitive,
>
    decreases d,
{
    if d == 0 {
        Seq::empty()
    } else {
        connectors_upto(geo, adj, layers, (d - 1) as nat) + layer_connectors(
            geo,
            adj,
            layers,
            d - 1,
            layers[d - 1]@.len(),
        )
    }
}

/// The larger of two numbers.
pub open spec fn max_of(a: int, b: int) -> int {
    if a > b {
        a
    } else {
        b
    }
}

/// The primitives, the placed geometry, and the canvas size of a drawing.
pub struct Drawing {
    pub primitives: Vec<Primitive>,
    pub geometry: Vec<SasGeometry>,
    pub width: u64,
    pub height: u64,
}

/// `dr` is the drawing of the vertices `vs` with adjacency `adj` and layering `l`:
/// all nodes layer by layer, then all connectors in the same order, drawn from
/// the geometry that the nodes left.
pub open spec fn drawing_of(dr: Drawing, vs: Seq<SasDigraphVertex>, adj: Seq<Vec<usize>>, l: Layering) -> bool {
    let nodes = nodes_upto(vs, l.layers@, l.max_height as nat, l.max_depth as nat);
    let geo = placed(unplaced(vs.len()), nodes);
    &&& dr.geometry@ == geo
    &&& dr.primitives@ == nodes + connectors_upto(geo, adj, l.layers@, l.max_depth as nat)
    &&& dr.width == max_of(1200, l.max_depth * 250)
    &&& dr.height == max_of(1100, l.max_height * 150)
}

/// Largest coordinate that placement can produce, with room for the connectors.
pub open spec fn coord_bound() -> int {
    0x400_0000_0000
}

pub open spec fn geo_bounded(geo: Seq<SasGeometry>) -> bool {
    forall|v: int| 0 <= v < geo.len() ==> #[trigger] geo[v].x <= coord_bound() && geo[v].y <= coord_bound()
}

proof fn lemma_row_bound(i: int, len: int, mh: int)
    requires
        0 < i < len,
        len <= mh,
    ensures
        0 <= i * (mh / len) <= mh,
{
    assert(0 <= mh / len) by (nonlinear_arith)
        requires
            0 < len <= mh,
    ;
    assert(i * (mh / len) <= len * (mh / len)) by (nonlinear_arith)
        requires
            i < len,
            0 <= mh / len,
    ;
    assert(len * (mh / len) <= mh) by (nonlinear_arith)
        requires
            0 < len,
            0 <= mh,
    ;
    assert(0 <= i * (mh / len)) by (nonlinear_arith)
        requires
            0 < i,
            0 <= mh / len,
    ;
}

/// Places every vertex of the layers on the grid and emits its node, layer by
/// layer and in layer order; returns the nodes and the geometry they leave.
/// Fails with `MalformedInput` at the first vertex of unknown kind.
pub fn emit_nodes(vs: &Vec<SasDigraphVertex>, l: &Layering) -> (r: Result<(Vec<Primitive>, Vec<SasGeometry>), TopoError>)
    requires
        layering_wf(*l, vs.len() as nat),
        l.max_height <= u32::MAX,
    ensures
        kinds_known(vs@, l.layers@) ==> r is Ok && {
            let (p, g) = r->Ok_0;
            &&& p@ == nodes_upto(vs@, l.layers@, l.max_height as nat, l.max_depth as nat)
            &&& g@ == placed(unplaced(vs.len() as nat), p@)
            &&& g.len() == vs.len()
            &&& geo_bounded(g@)
        },
        !kinds_known(vs@, l.layers@) ==> r is Err && r->Err_0 is MalformedInput,
{
    let n = vs.len();
    let mh = l.max_height;
    let ghost layers = l.layers@;
    let mut geo: Vec<SasGeometry> = Vec::new();
    let mut v: usize = 0;
    while v < n
        invariant
            v <= n,
            geo@ == unplaced(v as nat),
        decreases n - v,
    {
        geo.push(SasGeometry::new(0, 0, 0, 0));
        v = v + 1;
        assert(geo@ =~= unplaced(v as nat));
    }
    let mut prims: Vec<Primitive> = Vec::new();
    let mut d: usize = 0;
    while d < l.layers.len()
        invariant
            layering_wf(*l, n as nat),
            n == vs.len(),
            mh == l.max_height,
            mh <= u32::MAX,
            layers == l.layers@,
            d <= layers.len(),
            geo.len() == n,
            prims@ == nodes_upto(vs@, layers, mh as nat, d as nat),
            geo@ == placed(unplaced(n as nat), prims@),
            geo_bounded(geo@),
            forall|e: int, i: int|
                0 <= e < d && 0 <= i < layers[e]@.len() ==> #[trigger] kind_of(vs@[layers[e]@[i] as int].name@) is Some,
        decreases layers.len() - d,
    {
        let layer = &l.layers[d];
        let len = layer.len();
        let ghost base = prims@;
        let mut i: usize = 0;
        while i < len
            invariant
                layering_wf(*l, n as nat),
                n == vs.len(),
                mh == l.max_height,
                mh <= u32::MAX,
                layers == l.layers@,
                d < layers.len(),
                *layer == layers[d as int],
                len == layer@.len(),
                i <= len,
                geo.len() == n,
                base == nodes_upto(vs@, layers, mh as nat, d as nat),
                prims@ == base + layer_nodes(vs@, layers, mh as nat, d as int, i as nat),
                geo@ == placed(unplaced(n as nat), prims@),
                geo_bounded(geo@),
                forall|e: int, j: int|
                    0 <= e < d && 0 <= j < layers[e]@.len() ==> #[trigger] kind_of(vs@[layers[e]@[j] as int].name@) is Some,
                forall|j: int| 0 <= j < i ==> #[trigger] kind_of(vs@[layers[d as int]@[j] as int].name@) is Some,
            decreases len - i,
        {
            let v = layer[i];
            assert(v < n);
            let kind = match vertex_kind(vs[v].name.as_str()) {
                Some(k) => k,
                None => {
                    assert(kind_of(vs@[layers[d as int]@[i as int] as int].name@) is None);
                    return Err(TopoError::MalformedInput(malformed_text("unknown vertex kind: ", vs[v].name.as_str())));
                },
            };
            assert(d < u32::MAX);
            let x: u64 = d as u64 * X_SPACING + X_MARGIN;
            let y: u64 = if i == 0 {
                Y_MARGIN
            } else {
                assert(len <= mh);
                proof {
                    lemma_row_bound(i as int, len as int, mh as int);
                }
                let f: u64 = (mh as u64) / (len as u64);
                assert((i as int) * f <= mh as int);
                assert((i as int) * 150 * f == 150 * ((i as int) * f)) by (nonlinear_arith);
                (i as u64) * Y_SPACING * f + Y_MARGIN
            };
            assert(y as int == y_of(i as int, len as int, mh as int));
            let p = Primitive::Node { vertex: v, kind, x, y, width: VTX_SIZE, height: VTX_SIZE };
            assert(p == node_at(vs@, layers, mh as nat, d as int, i as int));
            let ghost pre = prims@;
            prims.push(p);
            geo.set(v, SasGeometry::new(x, y, VTX_SIZE, VTX_SIZE));
            proof {
                assert(prims@.drop_last() =~= pre);
                assert(layer_nodes(vs@, layers, mh as nat, d as int, (i + 1) as nat) =~= layer_nodes(
                    vs@,
                    layers,
                    mh as nat,
                    d as int,
                    i as nat,
                ).push(p));
                assert(prims@ =~= base + layer_nodes(vs@, layers, mh as nat, d as int, (i + 1) as nat));
            }
            i = i + 1;
        }
        d = d + 1;
    }
    Ok((prims, geo))
}

/// Emits the connectors of every vertex of the layers, layer by layer and in
/// layer order, from the placed geometry `geo`.
pub fn emit_connectors(geo: &Vec<SasGeometry>, adj: &Vec<Vec<usize>>, l: &Layering) -> (r: Vec<Primitive>)
    requires
        adj_wf(adj@),
        geo.len() == adj.len(),
        geo_bounded(geo@),
        layering_wf(*l, adj.len() as nat),
    ensures
        r@ == connectors_upto(geo@, adj@, l.layers@, l.max_depth as nat),
{
    let ghost layers = l.layers@;
    let n = adj.len();
    let mut out: Vec<Primitive> = Vec::new();
    let mut d: usize = 0;
    while d < l.layers.len()
        invariant
            adj_wf(adj@),
            n == adj.len(),
            geo.len() == n,
            geo_bounded(geo@),
            layering_wf(*l, n as nat),
            layers == l.layers@,
            d <= layers.len(),
            out@ == connectors_upto(geo@, adj@, layers, d as nat),
        decreases layers.len() - d,
    {
        let layer = &l.layers[d];
        let ghost base = out@;
        let mut i: usize = 0;
        while i < layer.len()
            invariant
                adj_wf(adj@),
                n == adj.len(),
                geo.len() == n,
                geo_bounded(geo@),
                layering_wf(*l, n as nat),
                layers == l.layers@,
                d < layers.len(),
                *layer == layers[d as int],
                i <= layer.len(),
                base == connectors_upto(geo@, adj@, layers, d as nat),
                out@ == base + layer_connectors(geo@, adj@, layers, d as int, i as nat),
            decreases layer.len() - i,
        {
            let v = layer[i];
            let es = &adj[v];
            let ghost before = out@;
            if es.len() > 0 {
                let g = geo[v];
                let sx: u64 = g.x + VTX_SIZE + EXIT_LEN;
                let sy: u64 = g.y + VTX_SIZE / 2;
                out.push(Primitive::Connector { x1: g.x + VTX_SIZE, y1: sy, x2: sx, y2: sy });
                let ghost start = out@;
                let mut k: usize = 0;
                while k < es.len()
                    invariant
                        adj_wf(adj@),
                        n == adj.len(),
                        geo.len() == n,
                        geo_bounded(geo@),
                        v < n,
                        *es == adj@[v as int],
                        g == geo@[v as int],
                        sx == g.x + 170,
                        sy == g.y + 60,
                        k <= es.len(),
                        out@ == start + routes(geo@, v, es@, k as nat),
                    decreases es.len() - k,
                {
                    let t = geo[es[k]];
                    let ty: u64 = t.y + VTX_SIZE / 2;
                    let ghost pre = out@;
                    out.push(Primitive::Connector { x1: sx, y1: sy, x2: sx, y2: ty });
                    out.push(Primitive::Connector { x1: sx, y1: ty, x2: t.x, y2: ty });
                    proof {
                        assert(out@ =~= pre + route(g, t));
                        assert(out@ =~= start + routes(geo@, v, es@, (k + 1) as nat));
                    }
                    k = k + 1;
                }
                proof {
                    assert(out@ =~= before + vertex_connectors(geo@, v, adj@[v as int]@));
                }
            } else {
                assert(out@ =~= before + vertex_connectors(geo@, v, adj@[v as int]@));
            }
            proof {
                assert(out@ =~= base + layer_connectors(geo@, adj@, layers, d as int, (i + 1) as nat));
            }
            i = i + 1;
        }
        d = d + 1;
    }
    out
}

/// Lays the layered graph out on the grid: the nodes, then the connectors, and
/// the canvas size. Fails with `MalformedInput` on a vertex of unknown kind.
pub fn emit_drawing(vs: &Vec<SasDigraphVertex>, adj: &Vec<Vec<usize>>, l: &Layering) -> (r: Result<Drawing, TopoError>)
    requires
        adj_wf(adj@),
        adj.len() == vs.len(),
        layering_wf(*l, vs.len() as nat),
        l.max_height <= u32::MAX,
    ensures
        kinds_known(vs@, l.layers@) ==> r is Ok && drawing_of(r->Ok_0, vs@, adj@, *l),
        !kinds_known(vs@, l.layers@) ==> r is Err && r->Err_0 is MalformedInput,
{
    let (nodes, geometry) = emit_nodes(vs, l)?;
    let conns = emit_connectors(&geometry, adj, l);
    let mut primitives = nodes;
    let mut k: usize = 0;
    let ghost base = primitives@;
    while k < conns.len()
        invariant
            k <= conns.len(),
            primitives@ == base + conns@.take(k as int),
        decreases conns.len() - k,
    {
        primitives.push(conns[k]);
        k = k + 1;
        assert(primitives@ =~= base + conns@.take(k as int));
    }
    assert(conns@.take(conns.len() as int) =~= conns@);
    let w: u64 = l.max_depth as u64 * X_SPACING;
    let h: u64 = l.max_height as u64 * Y_SPACING;
    let width: u64 = if w > 1200 { w } else { 1200 };
    let height: u64 = if h > 1100 { h } else { 1100 };
    Ok(Drawing { primitives, geometry, width, height })
}

/// The nodes of two successive layers stand exactly 250 apart horizontally,
/// whichever rows they take.
pub proof fn lemma_layer_x_step(vs: Seq<SasDigraphVertex>, layers: Seq<Vec<usize>>, mh: nat, d: int, i: int, j: int)
    requires
        0 <= d,
        d + 1 < u32::MAX,
    ensures
        node_at(vs, layers, mh, d + 1, j)->Node_x == node_at(vs, layers, mh, d, i)->Node_x + 250,
{
}

proof fn lemma_routes_len(geo: Seq<SasGeometry>, v: usize, es: Seq<usize>, k: nat)
    ensures
        routes(geo, v, es, k).len() == 2 * k,
    decreases k,
{
    if k > 0 {
        lemma_routes_len(geo, v, es, (k - 1) as nat);
    }
}

/// A vertex with no outgoing edges yields no connector; a vertex with `k`
/// outgoing edges yields one exit connector and then `k` pairs of routing
/// connectors, the pair for edge `j` ending at the left edge of its target.
pub proof fn lemma_connector_count(geo: Seq<SasGeometry>, v: usize, es: Seq<usize>)
    ensures
        es.len() == 0 ==> vertex_connectors(geo, v, es).len() == 0,
        es.len() > 0 ==> vertex_connectors(geo, v, es).len() == 1 + 2 * es.len()
            && vertex_connectors(geo, v, es)[0] == exit_line(geo[v as int]),
{
    lemma_routes_len(geo, v, es, es.len());
}

/// The number of connectors of a vertex with `k` outgoing edges.
pub open spec fn conn_count(k: nat) -> nat {
    if k == 0 {
        0
    } else {
        1 + 2 * k
    }
}

/// The number of connectors of the first `k` rows of layer index `d`.
pub open spec fn layer_conn_total(adj: Seq<Vec<usize>>, layers: Seq<Vec<usize>>, d: int, k: nat) -> nat
    decreases k,
{
    if k == 0 {
        0
    } else {
        layer_conn_total(adj, layers, d, (k - 1) as nat) + conn_count(adj[layers[d]@[k - 1] as int]@.len())
    }
}

/// The number of connectors of the first `d` layers.
pub open spec fn conn_total(adj: Seq<Vec<usize>>, layers: Seq<Vec<usize>>, d: nat) -> nat
    decreases d,
{
    if d == 0 {
        0
    } else {
        conn_total(adj, layers, (d - 1) as nat) + layer_conn_total(adj, layers, d - 1, layers[d - 1]@.len())
    }
}

proof fn lemma_layer_connectors_len(geo: Seq<SasGeometry>, adj: Seq<Vec<usize>>, layers: Seq<Vec<usize>>, d: int, k: nat)
    ensures
        layer_connectors(geo, adj, layers, d, k).len() == layer_conn_total(adj, layers, d, k),
    decreases k,
{
    if k > 0 {
        lemma_layer_connectors_len(geo, adj, layers, d, (k - 1) as nat);
        let v = layers[d]@[k - 1];
        lemma_connector_count(geo, v, adj[v as int]@);
    }
}

/// The connectors of a drawing number, over every entry of the layers, one
/// plus twice its edge count for an entry with edges and none for a leaf.
pub proof fn lemma_connector_total(geo: Seq<SasGeometry>, adj: Seq<Vec<usize>>, layers: Seq<Vec<usize>>, d: nat)
    ensures
        connectors_upto(geo, adj, layers, d).len() == conn_total(adj, layers, d),
    decreases d,
{
    if d > 0 {
        lemma_connector_total(geo, adj, layers, (d - 1) as nat);
        lemma_layer_connectors_len(geo, adj, layers, d - 1, layers[d - 1]@.len());
    }
}

} // verus!
