use sastopo2svg::builder::{build_graph, parse_prop, vertex_properties, PG_NAME, PG_VALS, PROP_NAME, PROP_VALUE};
use sastopo2svg::draw::{icon_path, Primitive, VertexKind};
use sastopo2svg::error::TopoError;
use sastopo2svg::layout::layer_graph;
use sastopo2svg::model::{Config, NvList, NvPair, RawTopology, RawVertex};
use sastopo2svg::render::{layout_graph, render, Rendering};
use sastopo2svg::text::parse_instance;

fn scalar(name: &str, value: &str) -> NvPair {
    NvPair {
        name: Some(name.to_string()),
        value: Some(value.to_string()),
        nvpair_elements: None,
        nvlist_elements: None,
    }
}

fn prop(name: &str, value: &str) -> NvList {
    NvList { nvpairs: Some(vec![scalar(PROP_NAME, name), scalar(PROP_VALUE, value)]) }
}

fn group(name: &str, props: Vec<NvList>) -> NvList {
    let vals = NvPair { name: Some(PG_VALS.to_string()), value: None, nvpair_elements: None, nvlist_elements: Some(props) };
    NvList { nvpairs: Some(vec![scalar(PG_NAME, name), vals]) }
}

fn groups(pgs: Vec<NvList>) -> Vec<NvPair> {
    vec![NvPair { name: Some("property-groups".to_string()), value: None, nvpair_elements: None, nvlist_elements: Some(pgs) }]
}

fn vertex(fmri: &str, kind: &str, instance: &str, edges: Option<Vec<&str>>) -> RawVertex {
    RawVertex {
        fmri: fmri.to_string(),
        name: kind.to_string(),
        instance: instance.to_string(),
        outgoing_edges: edges.map(|e| e.iter().map(|s| s.to_string()).collect()),
        propgroups: Vec::new(),
    }
}

fn topology(vertices: Vec<RawVertex>) -> RawTopology {
    RawTopology {
        product_id: "product".to_string(),
        nodename: "host".to_string(),
        os_version: "os".to_string(),
        timestamp: "2020-01-01T00:00:00Z".to_string(),
        vertices,
    }
}

fn nodes(r: &Rendering) -> Vec<(usize, VertexKind, u64, u64)> {
    let mut out = Vec::new();
    for p in &r.layout.drawing.primitives {
        if let Primitive::Node { vertex, kind, x, y, .. } = p {
            out.push((*vertex, *kind, *x, *y));
        }
    }
    out
}

fn connectors(r: &Rendering) -> Vec<(u64, u64, u64, u64)> {
    let mut out = Vec::new();
    for p in &r.layout.drawing.primitives {
        if let Primitive::Connector { x1, y1, x2, y2 } = p {
            out.push((*x1, *y1, *x2, *y2));
        }
    }
    out
}

fn x_of_fmri(r: &Rendering, fmri: &str) -> u64 {
    let idx = r.graph.vertices.iter().position(|v| v.fmri == fmri).unwrap();
    r.layout.drawing.geometry[idx].x
}

#[test]
fn instance_hex_decodes() {
    assert_eq!(parse_instance("0x1f").ok(), Some(31));
    assert_eq!(parse_instance("0xFF").ok(), Some(255));
    assert_eq!(parse_instance("0xffffffffffffffff").ok(), Some(u64::MAX));
}

#[test]
fn instance_without_hex_body_is_malformed() {
    assert!(matches!(parse_instance("0x"), Err(TopoError::MalformedInput(_))));
    assert!(matches!(parse_instance("0xzz"), Err(TopoError::MalformedInput(_))));
    assert!(matches!(parse_instance("0x+a"), Err(TopoError::MalformedInput(_))));
    assert!(matches!(parse_instance("0x-1"), Err(TopoError::MalformedInput(_))));
    assert!(matches!(parse_instance("1"), Err(TopoError::MalformedInput(_))));
    assert!(matches!(parse_instance("0x10000000000000000"), Err(TopoError::MalformedInput(_))));
}

#[test]
fn array_property_joins_with_commas() {
    let elems = vec![scalar("0", "a"), scalar("1", "b"), scalar("2", "c")];
    let value = NvPair { name: Some(PROP_VALUE.to_string()), value: None, nvpair_elements: Some(elems), nvlist_elements: None };
    let nvl = NvList { nvpairs: Some(vec![scalar(PROP_NAME, "lanes"), value]) };
    let p = parse_prop(&nvl).ok().unwrap();
    assert_eq!(p.name, "lanes");
    assert_eq!(p.value, "a,b,c");
}

#[test]
fn property_without_value_is_malformed() {
    let nvl = NvList { nvpairs: Some(vec![scalar(PROP_NAME, "lanes")]) };
    assert!(matches!(parse_prop(&nvl), Err(TopoError::MalformedInput(_))));
}

#[test]
fn protocol_group_contributes_nothing() {
    let pgs = groups(vec![group("protocol", vec![prop("resource", "fmri")]), group("port", vec![prop("sas-address", "5000")])]);
    let props = vertex_properties(&pgs).ok().unwrap();
    assert_eq!(props.len(), 1);
    assert_eq!(props[0].name, "sas-address");
    assert_eq!(props[0].value, "5000");
}

#[test]
fn group_without_values_is_skipped() {
    let only_name = NvList { nvpairs: Some(vec![scalar(PG_NAME, "empty")]) };
    let pgs = groups(vec![only_name, group("port", vec![prop("a", "1"), prop("b", "2")])]);
    let props = vertex_properties(&pgs).ok().unwrap();
    assert_eq!(props.len(), 2);
    assert_eq!(props[1].value, "2");
}

#[test]
fn group_with_unexpected_pair_is_malformed() {
    let bad = NvList { nvpairs: Some(vec![scalar(PG_NAME, "port"), scalar("surprise", "x")]) };
    assert!(matches!(vertex_properties(&groups(vec![bad])), Err(TopoError::MalformedInput(_))));
    let unnamed = NvList { nvpairs: Some(vec![]) };
    assert!(matches!(vertex_properties(&groups(vec![unnamed])), Err(TopoError::MalformedInput(_))));
}

#[test]
fn later_record_replaces_earlier() {
    let topo = topology(vec![
        vertex("a", "initiator", "0x1", None),
        vertex("a", "initiator", "0x2", None),
    ]);
    let g = build_graph(&topo).ok().unwrap();
    assert_eq!(g.vertices.len(), 1);
    assert_eq!(g.vertices[0].instance, 2);
    assert_eq!(g.initiators.len(), 2);
    assert_eq!(g.product_id, "product");
}

#[test]
fn missing_edge_target_is_lookup_failure() {
    let topo = topology(vec![vertex("i", "initiator", "0x0", Some(vec!["nowhere"]))]);
    match render(&topo) {
        Err(TopoError::LookupFailure(id)) => assert_eq!(id, "nowhere"),
        _ => panic!("expected a lookup failure"),
    }
}

#[test]
fn cycle_is_detected() {
    let topo = topology(vec![
        vertex("i", "initiator", "0x0", Some(vec!["p"])),
        vertex("p", "port", "0x1", Some(vec!["q"])),
        vertex("q", "port", "0x2", Some(vec!["p"])),
    ]);
    assert!(matches!(render(&topo), Err(TopoError::CycleDetected(_))));
}

#[test]
fn unknown_kind_is_malformed() {
    let topo = topology(vec![vertex("i", "initiator", "0x0", Some(vec!["w"])), vertex("w", "widget", "0x1", None)]);
    assert!(matches!(render(&topo), Err(TopoError::MalformedInput(_))));
}

#[test]
fn linear_topology_end_to_end() {
    let topo = topology(vec![
        vertex("i", "initiator", "0x0", Some(vec!["p"])),
        vertex("p", "port", "0x1", Some(vec!["t"])),
        vertex("t", "target", "0x2", None),
    ]);
    let r = render(&topo).ok().unwrap();
    let ns = nodes(&r);
    assert_eq!(ns.len(), 3);
    assert_eq!(ns[0].1, VertexKind::Initiator);
    assert_eq!(x_of_fmri(&r, "i"), 50);
    assert_eq!(x_of_fmri(&r, "p"), 300);
    assert_eq!(x_of_fmri(&r, "t"), 550);
    // one exit and two routing segments for each of the two edges
    let cs = connectors(&r);
    assert_eq!(cs.len(), 6);
    assert_eq!(cs[0], (170, 70, 220, 70));
    assert_eq!(cs[1], (220, 70, 220, 70));
    assert_eq!(cs[2], (220, 70, 300, 70));
    assert!(r.layout.drawing.width >= 1200);
    assert_eq!(r.layout.drawing.width, 1200);
    assert_eq!(r.layout.drawing.height, 1100);
}

#[test]
fn linear_chain_has_one_vertex_per_layer() {
    let n = 6;
    let mut vs = Vec::new();
    for i in 0..n {
        let kind = if i == 0 { "initiator" } else { "expander" };
        let next = if i + 1 < n { Some(vec![format!("v{}", i + 1)]) } else { None };
        let mut v = vertex(&format!("v{}", i), kind, "0x0", None);
        v.outgoing_edges = next;
        vs.push(v);
    }
    let r = render(&topology(vs)).ok().unwrap();
    let l = &r.layout.layering;
    assert_eq!(l.max_depth, 6);
    assert_eq!(l.max_height, 1);
    for layer in &l.layers {
        assert_eq!(layer.len(), 1);
    }
    let ns = nodes(&r);
    for k in 1..ns.len() {
        assert_eq!(ns[k].2, ns[k - 1].2 + 250);
    }
    assert_eq!(r.layout.drawing.width, 1500);
}

#[test]
fn leaf_has_no_connectors_and_fan_out_has_pairs() {
    let topo = topology(vec![
        vertex("i", "initiator", "0x0", Some(vec!["a", "b", "c"])),
        vertex("a", "target", "0x1", None),
        vertex("b", "target", "0x2", Some(vec![])),
        vertex("c", "target", "0x3", None),
    ]);
    let r = render(&topo).ok().unwrap();
    assert_eq!(connectors(&r).len(), 1 + 2 * 3);
}

#[test]
fn rows_spread_by_longest_layer() {
    let topo = topology(vec![
        vertex("i", "initiator", "0x0", Some(vec!["a", "b"])),
        vertex("a", "port", "0x1", Some(vec!["t1", "t2", "t3", "t4"])),
        vertex("b", "port", "0x2", None),
        vertex("t1", "target", "0x3", None),
        vertex("t2", "target", "0x4", None),
        vertex("t3", "target", "0x5", None),
        vertex("t4", "target", "0x6", None),
    ]);
    let r = render(&topo).ok().unwrap();
    assert_eq!(r.layout.layering.max_height, 4);
    let ns = nodes(&r);
    // layer 2 holds two vertices: the second row is spaced by 4 / 2 = 2 rows
    assert_eq!(ns[1].3, 10);
    assert_eq!(ns[2].3, 150 * 2 + 10);
    // layer 3 holds four: rows one apart
    assert_eq!(ns[6].3, 3 * 150 + 10);
    assert_eq!(r.layout.drawing.height, 1100);
}

#[test]
fn shared_vertex_is_counted_per_path() {
    let topo = topology(vec![
        vertex("i1", "initiator", "0x0", Some(vec!["t"])),
        vertex("i2", "initiator", "0x1", Some(vec!["t"])),
        vertex("t", "target", "0x2", None),
    ]);
    let g = build_graph(&topo).ok().unwrap();
    let adj = vec![vec![2usize], vec![2usize], vec![]];
    let l = layer_graph(&adj, &vec![0usize, 1usize]).ok().unwrap();
    assert_eq!(l.layers[1], vec![2usize, 2usize]);
    assert_eq!(l.max_height, 2);
    let lay = layout_graph(&g).ok().unwrap();
    assert_eq!(lay.layering.max_height, 2);
}

#[test]
fn config_holds_paths() {
    let c = Config::new("out".to_string(), "topo.xml".to_string());
    assert_eq!(c.outdir, "out");
    assert_eq!(c.xml_path, "topo.xml");
}

#[test]
fn each_kind_has_its_icon() {
    assert_eq!(icon_path(VertexKind::Initiator), "assets/icons/initiator.png");
    assert_eq!(icon_path(VertexKind::Port), "assets/icons/port.png");
    assert_eq!(icon_path(VertexKind::Expander), "assets/icons/expander.png");
    assert_eq!(icon_path(VertexKind::Target), "assets/icons/target.png");
}

#[test]
fn errors_name_the_offending_input() {
    let nvl = NvList { nvpairs: Some(vec![scalar(PROP_NAME, "lanes")]) };
    match parse_prop(&nvl) {
        Err(TopoError::MalformedInput(m)) => assert_eq!(m, "malformed property value nvlist: property-name=lanes;"),
        _ => panic!("expected a malformed input"),
    }
    match parse_instance("0xzz") {
        Err(TopoError::MalformedInput(m)) => assert!(m.ends_with("0xzz")),
        _ => panic!("expected a malformed input"),
    }
    let topo = topology(vec![
        vertex("i", "initiator", "0x0", Some(vec!["p"])),
        vertex("p", "port", "0x1", Some(vec!["q"])),
        vertex("q", "port", "0x2", Some(vec!["p"])),
    ]);
    match render(&topo) {
        Err(TopoError::CycleDetected(v)) => assert_eq!(v, 1),
        _ => panic!("expected a cycle"),
    }
}
