use vstd::prelude::*;

verus! {

/// One name/value pair of the generic attribute tree. A pair carries a scalar
/// `value`, an array of element pairs, or a list of nested groups.
pub struct NvPair {
    pub name: Option<String>,
    pub value: Option<String>,
    pub nvpair_elements: Option<Vec<NvPair>>,
    pub nvlist_elements: Option<Vec<NvList>>,
}

/// A group of pairs in the attribute tree.
pub struct NvList {
    pub nvpairs: Option<Vec<NvPair>>,
}

/// A vertex record as the attribute tree gives it.
pub struct RawVertex {
    pub fmri: String,
    pub name: String,
    /// The instance number in hexadecimal text, after a two-character radix marker.
    pub instance: String,
    /// Identifiers of the downstream vertices; `None` for a leaf.
    pub outgoing_edges: Option<Vec<String>>,
    pub propgroups: Vec<NvPair>,
}

/// The parsed topology: fabric metadata and the vertex records in source order.
pub struct RawTopology {
    pub product_id: String,
    pub nodename: String,
    pub os_version: String,
    pub timestamp: String,
    pub vertices: Vec<RawVertex>,
}

/// A display property of a vertex.
pub struct SasDigraphProperty {
    pub name: String,
    pub value: String,
}

impl View for SasDigraphProperty {
    type V = (Seq<char>, Seq<char>);

    open spec fn view(&self) -> (Seq<char>, Seq<char>) {
        (self.name@, self.value@)
    }
}

impl SasDigraphProperty {
    pub fn new(name: String, value: String) -> (r: SasDigraphProperty)
        ensures
            r.name == name,
            r.value == value,
    {
        SasDigraphProperty { name, value }
    }
}

/// The placement of a vertex on the canvas.
#[derive(Clone, Copy, PartialEq, Eq, Structural, Debug)]
pub struct SasGeometry {
    pub x: u64,
    pub y: u64,
    pub width: u64,
    pub height: u64,
}

impl SasGeometry {
    pub fn new(x: u64, y: u64, width: u64, height: u64) -> (r: SasGeometry)
        ensures
            r == (SasGeometry { x, y, width, height }),
    {
        SasGeometry { x, y, width, height }
    }
}

/// The properties of a vertex as (name, value) pairs.
pub open spec fn props_view(ps: Seq<SasDigraphProperty>) -> Seq<(Seq<char>, Seq<char>)> {
    ps.map_values(|p: SasDigraphProperty| p@)
}

/// The identifiers in a list of strings.
pub open spec fn ids_view(ids: Seq<String>) -> Seq<Seq<char>> {
    ids.map_values(|s: String| s@)
}

/// A vertex of the fabric graph.
pub struct SasDigraphVertex {
    pub fmri: String,
    pub name: String,
    pub instance: u64,
    pub properties: Vec<SasDigraphProperty>,
    pub outgoing_edges: Option<Vec<String>>,
}

/// What a vertex holds, over plain values.
pub struct VertexModel {
    pub fmri: Seq<char>,
    pub name: Seq<char>,
    pub instance: u64,
    pub properties: Seq<(Seq<char>, Seq<char>)>,
    pub outgoing_edges: Option<Seq<Seq<char>>>,
}

/// The edge identifiers of a vertex, if it has an edge list.
pub open spec fn edges_view(e: Option<Vec<String>>) -> Option<Seq<Seq<char>>> {
    match e {
        Some(v) => Some(ids_view(v@)),
        None => None,
    }
}

impl View for SasDigraphVertex {
    type V = VertexModel;

    open spec fn view(&self) -> VertexModel {
        VertexModel {
            fmri: self.fmri@,
            name: self.name@,
            instance: self.instance,
            properties: props_view(self.properties@),
            outgoing_edges: edges_view(self.outgoing_edges),
        }
    }
}

impl SasDigraphVertex {
    /// A vertex with no properties yet.
    pub fn new(fmri: String, name: String, instance: u64, outgoing_edges: Option<Vec<String>>) -> (r:
        SasDigraphVertex)
        ensures
            r.fmri == fmri,
            r.name == name,
            r.instance == instance,
            r.properties@.len() == 0,
            r.outgoing_edges == outgoing_edges,
    {
        let properties = Vec::new();
        SasDigraphVertex { fmri, name, instance, properties, outgoing_edges }
    }
}

/// The fabric graph: metadata, the vertices (identifiers unique), and the
/// identifiers of the root vertices in discovery order.
pub struct SasDigraph {
    pub product_id: String,
    pub nodename: String,
    pub os_version: String,
    pub timestamp: String,
    pub vertices: Vec<SasDigraphVertex>,
    pub initiators: Vec<String>,
}

/// No two vertices share an identifier.
pub open spec fn fmris_unique(vs: Seq<SasDigraphVertex>) -> bool {
    forall|i: int, j: int| 0 <= i < vs.len() && 0 <= j < vs.len() && i != j ==> vs[i].fmri@ != vs[j].fmri@
}

impl SasDigraph {
    pub open spec fn wf(&self) -> bool {
        fmris_unique(self.vertices@)
    }

    /// An empty graph with the given metadata.
    pub fn new(product_id: String, nodename: String, os_version: String, timestamp: String) -> (r:
        SasDigraph)
        ensures
            r.wf(),
            r.product_id == product_id,
            r.nodename == nodename,
            r.os_version == os_version,
            r.timestamp == timestamp,
            r.vertices@.len() == 0,
            r.initiators@.len() == 0,
    {
        let vertices = Vec::new();
        let initiators = Vec::new();
        SasDigraph { product_id, nodename, os_version, timestamp, vertices, initiators }
    }
}

/// Where the drawing goes and where the topology comes from.
pub struct Config {
    pub outdir: String,
    pub xml_path: String,
}

impl Config {
    pub fn new(outdir: String, xml_path: String) -> (r: Config)
        ensures
            r.outdir == outdir,
            r.xml_path == xml_path,
    {
        Config { outdir, xml_path }
    }
}

} // verus!
