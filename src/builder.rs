use vstd::prelude::*;

use crate::error::TopoError;
use crate::model::{
    edges_view, fmris_unique, ids_view, props_view, NvList, NvPair, RawTopology, RawVertex,
    SasDigraph, SasDigraphProperty, SasDigraphVertex, VertexModel,
};
use crate::text::{instance_value, join_comma, malformed_text, parse_instance, str_eq};

verus! {

/// Name of the pair that holds a property group's name.
pub const PG_NAME: &'static str = "property-group-name";

/// Name of the pair that holds a property group's properties.
pub const PG_VALS: &'static str = "property-values";

/// Name of the pair that holds a property's name.
pub const PROP_NAME: &'static str = "property-name";

/// Name of the pair that holds a property's value.
pub const PROP_VALUE: &'static str = "property-value";

/// The property group that only repeats the vertex's own identifier.
pub const PROTOCOL_GROUP: &'static str = "protocol";

/// The kind name of root vertices.
pub const INITIATOR: &'static str = "initiator";

/// The values of the elements of an array pair, if each has one.
pub open spec fn elem_values(es: Seq<NvPair>) -> Option<Seq<Seq<char>>>
    decreases es.len(),
{
    if es.len() == 0 {
        Some(Seq::empty())
    } else {
        match (elem_values(es.drop_last()), es.last().value) {
            (Some(a), Some(v)) => Some(a.push(v@)),
            _ => None,
        }
    }
}

/// The value of a property pair: its array elements joined with `,`, or else its scalar.
pub open spec fn prop_value(p: NvPair) -> Option<Seq<char>> {
    match p.nvpair_elements {
        Some(es) => match elem_values(es@) {
            Some(vs) => Some(join_comma(vs)),
            None => None,
        },
        None => match p.value {
            Some(v) => Some(v@),
            None => None,
        },
    }
}

/// The name and value found so far while reading a property.
pub type PropState = (Option<Seq<char>>, Option<Seq<char>>);

pub open spec fn prop_step(st: PropState, p: NvPair) -> Option<PropState> {
    match p.name {
        None => None,
        Some(n) => if n@ == PROP_NAME@ {
            match p.value {
                Some(v) => Some((Some(v@), st.1)),
                None => None,
            }
        } else if n@ == PROP_VALUE@ {
            match prop_value(p) {
                Some(v) => Some((st.0, Some(v))),
                None => None,
            }
        } else {
            Some(st)
        },
    }
}

pub open spec fn prop_scan(ps: Seq<NvPair>) -> Option<PropState>
    decreases ps.len(),
{
    if ps.len() == 0 {
        Some((None, None))
    } else {
        match prop_scan(ps.drop_last()) {
            Some(st) => prop_step(st, ps.last()),
            None => None,
        }
    }
}

/// The (name, value) that a property node yields; `None` when it is malformed.
pub open spec fn prop_of(l: NvList) -> Option<(Seq<char>, Seq<char>)> {
    let st = match l.nvpairs {
        Some(ps) => prop_scan(ps@),
        None => Some((None, None)),
    };
    match st {
        Some((Some(n), Some(v))) => Some((n, v)),
        _ => None,
    }
}

/// The properties of a list of property nodes, in order; `None` if one is malformed.
pub open spec fn props_of_lists(ls: Seq<NvList>) -> Option<Seq<(Seq<char>, Seq<char>)>>
    decreases ls.len(),
{
    if ls.len() == 0 {
        Some(Seq::empty())
    } else {
        match (props_of_lists(ls.drop_last()), prop_of(ls.last())) {
            (Some(a), Some(p)) => Some(a.push(p)),
            _ => None,
        }
    }
}

/// Text of an optional string for error messages: the string, or `?`.
pub open spec fn opt_text(o: Option<String>) -> Seq<char> {
    match o {
        Some(t) => t@,
        None => "?"@,
    }
}

/// Text of a list of pairs for error messages: `name=value;` for each pair.
pub open spec fn pairs_text(ps: Seq<NvPair>) -> Seq<char>
    decreases ps.len(),
{
    if ps.len() == 0 {
        Seq::empty()
    } else {
        pairs_text(ps.drop_last()) + opt_text(ps.last().name) + "="@ + opt_text(ps.last().value) + ";"@
    }
}

/// Text of a node for error messages: its pairs, or `-` for a node without pairs.
pub open spec fn node_text(l: NvList) -> Seq<char> {
    match l.nvpairs {
        Some(ps) => pairs_text(ps@),
        None => "-"@,
    }
}

fn opt_text_exec(o: &Option<String>) -> (r: String)
    ensures
        r@ == opt_text(*o),
{
    let mut out = String::new();
    push_opt(&mut out, o);
    out
}

fn push_opt(out: &mut String, o: &Option<String>)
    ensures
        final(out)@ == old(out)@ + opt_text(*o),
{
    match o {
        Some(t) => out.append(t.as_str()),
        None => out.append("?"),
    }
}

/// Describes a node for an error message, so that the offending input can be found.
pub fn describe_node(l: &NvList) -> (r: String)
    ensures
        r@ == node_text(*l),
{
    match &l.nvpairs {
        None => String::from_str("-"),
        Some(ps) => {
            let mut out = String::new();
            let mut i: usize = 0;
            while i < ps.len()
                invariant
                    i <= ps.len(),
                    out@ == pairs_text(ps@.take(i as int)),
                decreases ps.len() - i,
            {
                proof {
                    assert(ps@.take(i + 1).drop_last() =~= ps@.take(i as int));
                }
                push_opt(&mut out, &ps[i].name);
                out.append("=");
                push_opt(&mut out, &ps[i].value);
                out.append(";");
                i = i + 1;
            }
            assert(ps@.take(ps.len() as int) =~= ps@);
            out
        },
    }
}

/// Joins the values of the elements of an array pair with `,`.
fn join_values(es: &Vec<NvPair>) -> (r: Result<String, TopoError>)
    ensures
        match elem_values(es@) {
            Some(vs) => r is Ok && r->Ok_0@ == join_comma(vs),
            None => r is Err && r->Err_0 is MalformedInput,
        },
{
    let mut out = String::new();
    let mut i: usize = 0;
    while i < es.len()
        invariant
            i <= es.len(),
            elem_values(es@.take(i as int)) is Some,
            out@ == join_comma(elem_values(es@.take(i as int)).unwrap()),
        decreases es.len() - i,
    {
        proof {
            assert(es@.take(i + 1).drop_last() =~= es@.take(i as int));
        }
        match &es[i].value {
            Some(v) => {
                let ghost xs = elem_values(es@.take(i as int)).unwrap();
                proof {
                    reveal_strlit(",");
                    assert(xs.push(v@).drop_last() =~= xs);
                }
                if i > 0 {
                    out.append(",");
                } else {
                    assert(xs.len() == 0);
                }
                out.append(v.as_str());
                proof {
                    if i == 0 {
                        assert(out@ =~= xs.push(v@)[0]);
                    } else {
                        assert(out@ =~= join_comma(xs) + seq![','] + v@);
                    }
                }
            },
            None => {
                proof {
                    assert(elem_values(es@.take(i + 1)) is None);
                    lemma_elem_values_none(es@, i + 1);
                }
                return Err(TopoError::MalformedInput(String::from_str("array element without a value")));
            },
        }
        i = i + 1;
    }
    assert(es@.take(es.len() as int) =~= es@);
    Ok(out)
}

proof fn lemma_elem_values_none(es: Seq<NvPair>, k: int)
    requires
        0 <= k <= es.len(),
        elem_values(es.take(k)) is None,
    ensures
        elem_values(es) is None,
    decreases es.len() - k,
{
    if k < es.len() {
        assert(es.take(k + 1).drop_last() =~= es.take(k));
        lemma_elem_values_none(es, k + 1);
    } else {
        assert(es.take(k) =~= es);
    }
}

proof fn lemma_prop_scan_none(ps: Seq<NvPair>, k: int)
    requires
        0 <= k <= ps.len(),
        prop_scan(ps.take(k)) is None,
    ensures
        prop_scan(ps) is None,
    decreases ps.len() - k,
{
    if k < ps.len() {
        assert(ps.take(k + 1).drop_last() =~= ps.take(k));
        lemma_prop_scan_none(ps, k + 1);
    } else {
        assert(ps.take(k) =~= ps);
    }
}

/// Reads one property node: the last `property-name` pair gives its name and
/// the last `property-value` pair its value, array values joined with `,`.
pub fn parse_prop(nvl: &NvList) -> (r: Result<SasDigraphProperty, TopoError>)
    ensures
        match prop_of(*nvl) {
            Some(p) => r is Ok && r->Ok_0@ == p,
            None => r is Err && r->Err_0 is MalformedInput && r->Err_0->MalformedInput_0@
                == "malformed property value nvlist: "@ + node_text(*nvl),
        },
{
    let mut propname: Option<String> = None;
    let mut propval: Option<String> = None;
    match &nvl.nvpairs {
        Some(ps) => {
            let mut i: usize = 0;
            while i < ps.len()
                invariant
                    i <= ps.len(),
                    nvl.nvpairs == Some(*ps),
                    prop_scan(ps@.take(i as int)) == Some(
                        (
                            match propname {
                                Some(n) => Some(n@),
                                None => None,
                            },
                            match propval {
                                Some(v) => Some(v@),
                                None => None,
                            },
                        ),
                    ),
                decreases ps.len() - i,
            {
                proof {
                    assert(ps@.take(i + 1).drop_last() =~= ps@.take(i as int));
                }
                let p = &ps[i];
                let bad = match &p.name {
                    None => true,
                    Some(n) => {
                        if str_eq(n.as_str(), PROP_NAME) {
                            match &p.value {
                                Some(v) => {
                                    propname = Some(v.clone());
                                    false
                                },
                                None => true,
                            }
                        } else if str_eq(n.as_str(), PROP_VALUE) {
                            match &p.nvpair_elements {
                                Some(es) => match join_values(es) {
                                    Ok(j) => {
                                        propval = Some(j);
                                        false
                                    },
                                    Err(_) => true,
                                },
                                None => match &p.value {
                                    Some(v) => {
                                        propval = Some(v.clone());
                                        false
                                    },
                                    None => true,
                                },
                            }
                        } else {
                            false
                        }
                    },
                };
                if bad {
                    proof {
                        lemma_prop_scan_none(ps@, i + 1);
                    }
                    let d = describe_node(nvl);
                    return Err(TopoError::MalformedInput(malformed_text("malformed property value nvlist: ", d.as_str())));
                }
                i = i + 1;
            }
            assert(ps@.take(ps.len() as int) =~= ps@);
        },
        None => {},
    }
    match (propname, propval) {
        (Some(name), Some(val)) => Ok(SasDigraphProperty::new(name, val)),
        _ => {
            let d = describe_node(nvl);
            Err(TopoError::MalformedInput(malformed_text("malformed property value nvlist: ", d.as_str())))
        },
    }
}

/// The name and property list found so far while reading a property group.
pub type PgState = (Seq<char>, Option<Seq<NvList>>);

pub open spec fn pg_step(st: PgState, p: NvPair) -> Option<PgState> {
    match p.name {
        None => None,
        Some(n) => if n@ == PG_NAME@ {
            match p.value {
                Some(v) => Some((v@, st.1)),
                None => None,
            }
        } else if n@ == PG_VALS@ {
            match p.nvlist_elements {
                Some(ls) => Some((st.0, Some(ls@))),
                None => Some(st),
            }
        } else {
            None
        },
    }
}

pub open spec fn pg_scan(ps: Seq<NvPair>) -> Option<PgState>
    decreases ps.len(),
{
    if ps.len() == 0 {
        Some((Seq::empty(), None))
    } else {
        match pg_scan(ps.drop_last()) {
            Some(st) => pg_step(st, ps.last()),
            None => None,
        }
    }
}

/// The property nodes that a property group contributes: none for a group
/// without a value list or for the `protocol` group; `None` when the group is
/// malformed (an unexpected pair, or no name).
pub open spec fn pg_props(pg: NvList) -> Option<Seq<NvList>> {
    let st = match pg.nvpairs {
        Some(ps) => pg_scan(ps@),
        None => Some((Seq::empty(), None)),
    };
    match st {
        None => None,
        Some((name, props)) => if name.len() == 0 {
            None
        } else {
            match props {
                None => Some(Seq::empty()),
                Some(ls) => if name == PROTOCOL_GROUP@ {
                    Some(Seq::empty())
                } else {
                    Some(ls)
                },
            }
        },
    }
}

/// The properties of a list of property groups, in tree order.
pub open spec fn pg_list_props(pgs: Seq<NvList>) -> Option<Seq<(Seq<char>, Seq<char>)>>
    decreases pgs.len(),
{
    if pgs.len() == 0 {
        Some(Seq::empty())
    } else {
        match pg_list_props(pgs.drop_last()) {
            Some(a) => match pg_props(pgs.last()) {
                Some(ls) => match props_of_lists(ls) {
                    Some(b) => Some(a + b),
                    None => None,
                },
                None => None,
            },
            None => None,
        }
    }
}

/// The display properties of a vertex, from its property-group tree.
pub open spec fn vertex_props(groups: Seq<NvPair>) -> Option<Seq<(Seq<char>, Seq<char>)>>
    decreases groups.len(),
{
    if groups.len() == 0 {
        Some(Seq::empty())
    } else {
        match vertex_props(groups.drop_last()) {
            Some(a) => match groups.last().nvlist_elements {
                Some(pgs) => match pg_list_props(pgs@) {
                    Some(b) => Some(a + b),
                    None => None,
                },
                None => None,
            },
            None => None,
        }
    }
}

/// Appends the properties of the property nodes `ls` to `out`.
fn append_props(ls: &Vec<NvList>, out: &mut Vec<SasDigraphProperty>) -> (r: Result<(), TopoError>)
    ensures
        match props_of_lists(ls@) {
            Some(ps) => r is Ok && props_view(final(out)@) == props_view(old(out)@) + ps,
            None => r is Err && r->Err_0 is MalformedInput,
        },
{
    let ghost base = props_view(out@);
    let mut i: usize = 0;
    while i < ls.len()
        invariant
            i <= ls.len(),
            props_of_lists(ls@.take(i as int)) is Some,
            props_view(out@) == base + props_of_lists(ls@.take(i as int)).unwrap(),
        decreases ls.len() - i,
    {
        proof {
            assert(ls@.take(i + 1).drop_last() =~= ls@.take(i as int));
        }
        match parse_prop(&ls[i]) {
            Ok(p) => {
                let ghost pre = out@;
                out.push(p);
                proof {
                    assert(props_view(out@) =~= props_view(pre).push(p@));
                }
            },
            Err(e) => {
                proof {
                    lemma_props_of_lists_none(ls@, i + 1);
                }
                return Err(e);
            },
        }
        i = i + 1;
    }
    assert(ls@.take(ls.len() as int) =~= ls@);
    Ok(())
}

proof fn lemma_props_of_lists_none(ls: Seq<NvList>, k: int)
    requires
        0 <= k <= ls.len(),
        props_of_lists(ls.take(k)) is None,
    ensures
        props_of_lists(ls) is None,
    decreases ls.len() - k,
{
    if k < ls.len() {
        assert(ls.take(k + 1).drop_last() =~= ls.take(k));
        lemma_props_of_lists_none(ls, k + 1);
    } else {
        assert(ls.take(k) =~= ls);
    }
}

proof fn lemma_pg_scan_none(ps: Seq<NvPair>, k: int)
    requires
        0 <= k <= ps.len(),
        pg_scan(ps.take(k)) is None,
    ensures
        pg_scan(ps) is None,
    decreases ps.len() - k,
{
    if k < ps.len() {
        assert(ps.take(k + 1).drop_last() =~= ps.take(k));
        lemma_pg_scan_none(ps, k + 1);
    } else {
        assert(ps.take(k) =~= ps);
    }
}

/// Appends the properties of one property group to `out`.
fn append_pg(pg: &NvList, out: &mut Vec<SasDigraphProperty>) -> (r: Result<(), TopoError>)
    ensures
        match pg_props(*pg) {
            Some(ls) => match props_of_lists(ls) {
                Some(ps) => r is Ok && props_view(final(out)@) == props_view(old(out)@) + ps,
                None => r is Err && r->Err_0 is MalformedInput,
            },
            None => r is Err && r->Err_0 is MalformedInput,
        },
{
    let mut props: Option<&Vec<NvList>> = None;
    let mut pgname: &str = "";
    proof {
        reveal_strlit("");
    }
    match &pg.nvpairs {
        Some(ps) => {
            let mut i: usize = 0;
            while i < ps.len()
                invariant
                    i <= ps.len(),
                    pg.nvpairs == Some(*ps),
                    pg_scan(ps@.take(i as int)) == Some(
                        (
                            pgname@,
                            match props {
                                Some(l) => Some(l@),
                                None => None,
                            },
                        ),
                    ),
                decreases ps.len() - i,
            {
                proof {
                    assert(ps@.take(i + 1).drop_last() =~= ps@.take(i as int));
                }
                let p = &ps[i];
                let bad = match &p.name {
                    None => true,
                    Some(n) => {
                        if str_eq(n.as_str(), PG_NAME) {
                            match &p.value {
                                Some(v) => {
                                    pgname = v.as_str();
                                    false
                                },
                                None => true,
                            }
                        } else if str_eq(n.as_str(), PG_VALS) {
                            match &p.nvlist_elements {
                                Some(ls) => {
                                    props = Some(ls);
                                },
                                None => {},
                            }
                            false
                        } else {
                            true
                        }
                    },
                };
                if bad {
                    proof {
                        lemma_pg_scan_none(ps@, i + 1);
                    }
                    let d = describe_node(pg);
                    return Err(TopoError::MalformedInput(malformed_text("unexpected nvpair in property group: ", d.as_str())));
                }
                i = i + 1;
            }
            assert(ps@.take(ps.len() as int) =~= ps@);
        },
        None => {},
    }
    if pgname.unicode_len() == 0 {
        let d = describe_node(pg);
        return Err(TopoError::MalformedInput(malformed_text("malformed propgroup, property-group-name not set: ", d.as_str())));
    }
    match props {
        None => {
            assert(props_of_lists(Seq::<NvList>::empty()) == Some(Seq::<(Seq<char>, Seq<char>)>::empty()));
            assert(props_view(out@) + Seq::<(Seq<char>, Seq<char>)>::empty() =~= props_view(out@));
            Ok(())
        },
        Some(ls) => {
            if str_eq(pgname, PROTOCOL_GROUP) {
                assert(props_view(out@) + Seq::<(Seq<char>, Seq<char>)>::empty() =~= props_view(out@));
                Ok(())
            } else {
                append_props(ls, out)
            }
        },
    }
}

/// Appends the properties of a list of property groups to `out`.
fn append_pg_list(pgs: &Vec<NvList>, out: &mut Vec<SasDigraphProperty>) -> (r: Result<(), TopoError>)
    ensures
        match pg_list_props(pgs@) {
            Some(ps) => r is Ok && props_view(final(out)@) == props_view(old(out)@) + ps,
            None => r is Err && r->Err_0 is MalformedInput,
        },
{
    let ghost base = props_view(out@);
    let mut i: usize = 0;
    while i < pgs.len()
        invariant
            i <= pgs.len(),
            pg_list_props(pgs@.take(i as int)) is Some,
            props_view(out@) == base + pg_list_props(pgs@.take(i as int)).unwrap(),
        decreases pgs.len() - i,
    {
        proof {
            assert(pgs@.take(i + 1).drop_last() =~= pgs@.take(i as int));
        }
        let ghost pre = props_view(out@);
        match append_pg(&pgs[i], out) {
            Ok(()) => {
                proof {
                    let a = pg_list_props(pgs@.take(i as int)).unwrap();
                    let b = props_of_lists(pg_props(pgs@[i as int]).unwrap()).unwrap();
                    assert(props_view(out@) =~= base + (a + b));
                }
            },
            Err(e) => {
                proof {
                    lemma_pg_list_props_none(pgs@, i + 1);
                }
                return Err(e);
            },
        }
        i = i + 1;
    }
    assert(pgs@.take(pgs.len() as int) =~= pgs@);
    Ok(())
}

proof fn lemma_pg_list_props_none(pgs: Seq<NvList>, k: int)
    requires
        0 <= k <= pgs.len(),
        pg_list_props(pgs.take(k)) is None,
    ensures
        pg_list_props(pgs) is None,
    decreases pgs.len() - k,
{
    if k < pgs.len() {
        assert(pgs.take(k + 1).drop_last() =~= pgs.take(k));
        lemma_pg_list_props_none(pgs, k + 1);
    } else {
        assert(pgs.take(k) =~= pgs);
    }
}

proof fn lemma_vertex_props_none(gs: Seq<NvPair>, k: int)
    requires
        0 <= k <= gs.len(),
        vertex_props(gs.take(k)) is None,
    ensures
        vertex_props(gs) is None,
    decreases gs.len() - k,
{
    if k < gs.len() {
        assert(gs.take(k + 1).drop_last() =~= gs.take(k));
        lemma_vertex_props_none(gs, k + 1);
    } else {
        assert(gs.take(k) =~= gs);
    }
}

/// Collects the display properties of a vertex from its property-group tree.
pub fn vertex_properties(groups: &Vec<NvPair>) -> (r: Result<Vec<SasDigraphProperty>, TopoError>)
    ensures
        match vertex_props(groups@) {
            Some(ps) => r is Ok && props_view(r->Ok_0@) == ps,
            None => r is Err && r->Err_0 is MalformedInput,
        },
{
    let mut out: Vec<SasDigraphProperty> = Vec::new();
    let mut i: usize = 0;
    assert(props_view(out@) =~= Seq::<(Seq<char>, Seq<char>)>::empty());
    while i < groups.len()
        invariant
            i <= groups.len(),
            vertex_props(groups@.take(i as int)) is Some,
            props_view(out@) == vertex_props(groups@.take(i as int)).unwrap(),
        decreases groups.len() - i,
    {
        proof {
            assert(groups@.take(i + 1).drop_last() =~= groups@.take(i as int));
        }
        match &groups[i].nvlist_elements {
            Some(pgs) => {
                let ghost pre = props_view(out@);
                match append_pg_list(pgs, &mut out) {
                    Ok(()) => {},
                    Err(e) => {
                        proof {
                            lemma_vertex_props_none(groups@, i + 1);
                        }
                        return Err(e);
                    },
                }
            },
            None => {
                proof {
                    lemma_vertex_props_none(groups@, i + 1);
                }
                return Err(TopoError::MalformedInput(malformed_text("property group list without groups: ", opt_text_exec(&groups[i].name).as_str())));
            },
        }
        i = i + 1;
    }
    assert(groups@.take(groups.len() as int) =~= groups@);
    Ok(out)
}

/// The vertex that a raw vertex record yields; `None` when the record is malformed.
pub open spec fn vertex_model(r: RawVertex) -> Option<VertexModel> {
    match (instance_value(r.instance@), vertex_props(r.propgroups@)) {
        (Some(i), Some(ps)) => Some(
            VertexModel {
                fmri: r.fmri@,
                name: r.name@,
                instance: i,
                properties: ps,
                outgoing_edges: edges_view(r.outgoing_edges),
            },
        ),
        _ => None,
    }
}

/// Every record of `raws` is well formed.
pub open spec fn all_models(raws: Seq<RawVertex>) -> bool {
    forall|i: int| 0 <= i < raws.len() ==> #[trigger] vertex_model(raws[i]) is Some
}

/// The vertices by identifier; a later record replaces an earlier one of the same identifier.
pub open spec fn vertex_map(raws: Seq<RawVertex>) -> Map<Seq<char>, VertexModel>
    decreases raws.len(),
{
    if raws.len() == 0 {
        Map::empty()
    } else {
        vertex_map(raws.drop_last()).insert(raws.last().fmri@, vertex_model(raws.last()).unwrap())
    }
}

/// The identifiers of the initiator records, in source order.
pub open spec fn root_ids(raws: Seq<RawVertex>) -> Seq<Seq<char>>
    decreases raws.len(),
{
    if raws.len() == 0 {
        Seq::empty()
    } else if raws.last().name@ == INITIATOR@ {
        root_ids(raws.drop_last()).push(raws.last().fmri@)
    } else {
        root_ids(raws.drop_last())
    }
}

/// The vertex list `vs` holds exactly the map `m`, one vertex per identifier.
pub open spec fn holds_map(vs: Seq<SasDigraphVertex>, m: Map<Seq<char>, VertexModel>) -> bool {
    &&& fmris_unique(vs)
    &&& forall|k: Seq<char>| #[trigger]
        m.contains_key(k) <==> exists|i: int| 0 <= i < vs.len() && #[trigger] vs[i].fmri@ == k
    &&& forall|i: int| 0 <= i < vs.len() ==> m[#[trigger] vs[i].fmri@] == vs[i]@
}

/// A copy of a list of identifiers.
fn clone_ids(v: &Vec<String>) -> (r: Vec<String>)
    ensures
        ids_view(r@) == ids_view(v@),
{
    let mut out: Vec<String> = Vec::new();
    let mut i: usize = 0;
    while i < v.len()
        invariant
            i <= v.len(),
            ids_view(out@) == ids_view(v@.take(i as int)),
        decreases v.len() - i,
    {
        let c = v[i].clone();
        let ghost pre = out@;
        out.push(c);
        proof {
            assert(ids_view(out@) =~= ids_view(pre).push(c@));
            assert(ids_view(v@.take(i + 1)) =~= ids_view(v@.take(i as int)).push(v@[i as int]@));
        }
        i = i + 1;
    }
    assert(v@.take(v.len() as int) =~= v@);
    out
}

/// The position of the vertex with identifier `fmri`, if there is one.
pub fn find_vertex(vs: &Vec<SasDigraphVertex>, fmri: &str) -> (r: Option<usize>)
    ensures
        match r {
            Some(i) => i < vs.len() && vs@[i as int].fmri@ == fmri@,
            None => forall|i: int| 0 <= i < vs.len() ==> vs@[i].fmri@ != fmri@,
        },
{
    let mut i: usize = 0;
    while i < vs.len()
        invariant
            i <= vs.len(),
            forall|j: int| 0 <= j < i ==> vs@[j].fmri@ != fmri@,
        decreases vs.len() - i,
    {
        if str_eq(vs[i].fmri.as_str(), fmri) {
            return Some(i);
        }
        i = i + 1;
    }
    None
}

/// Builds one vertex from its record: decodes the instance, keeps the edge
/// list as it is, and collects the display properties.
pub fn build_vertex(raw: &RawVertex) -> (r: Result<SasDigraphVertex, TopoError>)
    ensures
        match vertex_model(*raw) {
            Some(m) => r is Ok && r->Ok_0@ == m,
            None => r is Err && r->Err_0 is MalformedInput,
        },
{
    let instance = parse_instance(raw.instance.as_str())?;
    let edges = match &raw.outgoing_edges {
        Some(e) => Some(clone_ids(e)),
        None => None,
    };
    let mut vtx = SasDigraphVertex::new(raw.fmri.clone(), raw.name.clone(), instance, edges);
    vtx.properties = vertex_properties(&raw.propgroups)?;
    Ok(vtx)
}

/// Builds the graph from a parsed topology: one vertex per identifier (a
/// later record replaces an earlier one), and the initiators as roots in
/// source order. Fails with `MalformedInput` on the first malformed record.
pub fn build_graph(topo: &RawTopology) -> (r: Result<SasDigraph, TopoError>)
    ensures
        all_models(topo.vertices@) ==> r is Ok && {
            let g = r->Ok_0;
            &&& g.wf()
            &&& g.product_id == topo.product_id
            &&& g.nodename == topo.nodename
            &&& g.os_version == topo.os_version
            &&& g.timestamp == topo.timestamp
            &&& holds_map(g.vertices@, vertex_map(topo.vertices@))
            &&& ids_view(g.initiators@) == root_ids(topo.vertices@)
        },
        !all_models(topo.vertices@) ==> r is Err && r->Err_0 is MalformedInput,
{
    let mut digraph = SasDigraph::new(
        topo.product_id.clone(),
        topo.nodename.clone(),
        topo.os_version.clone(),
        topo.timestamp.clone(),
    );
    let ghost raws = topo.vertices@;
    let mut i: usize = 0;
    assert(ids_view(digraph.initiators@) =~= Seq::<Seq<char>>::empty());
    assert(holds_map(digraph.vertices@, Map::<Seq<char>, VertexModel>::empty()));
    while i < topo.vertices.len()
        invariant
            raws == topo.vertices@,
            i <= raws.len(),
            all_models(raws.take(i as int)),
            holds_map(digraph.vertices@, vertex_map(raws.take(i as int))),
            ids_view(digraph.initiators@) == root_ids(raws.take(i as int)),
            digraph.product_id == topo.product_id,
            digraph.nodename == topo.nodename,
            digraph.os_version == topo.os_version,
            digraph.timestamp == topo.timestamp,
        decreases raws.len() - i,
    {
        let raw = &topo.vertices[i];
        let ghost pre = raws.take(i as int);
        let ghost post = raws.take(i + 1);
        assert(post.drop_last() =~= pre);
        let vtx = match build_vertex(raw) {
            Ok(v) => v,
            Err(e) => {
                assert(!all_models(raws));
                return Err(e);
            },
        };
        if str_eq(vtx.name.as_str(), INITIATOR) {
            let ghost before = digraph.initiators@;
            digraph.initiators.push(vtx.fmri.clone());
            assert(ids_view(digraph.initiators@) =~= ids_view(before).push(raw.fmri@));
        }
        let ghost m = vertex_map(pre);
        let ghost m2 = vertex_map(post);
        let ghost vs0 = digraph.vertices@;
        assert(m2 == m.insert(raw.fmri@, vtx@));
        match find_vertex(&digraph.vertices, vtx.fmri.as_str()) {
            Some(k) => {
                digraph.vertices.set(k, vtx);
                let ghost vs1 = digraph.vertices@;
                assert(forall|j: int| 0 <= j < vs1.len() ==> #[trigger] vs1[j].fmri@ == vs0[j].fmri@);
                assert forall|key: Seq<char>| #[trigger]
                    m2.contains_key(key) implies exists|j: int| 0 <= j < vs1.len() && #[trigger] vs1[j].fmri@ == key by {
                    if key == raw.fmri@ {
                        assert(vs1[k as int].fmri@ == key);
                    } else {
                        assert(m.contains_key(key));
                        let j = choose|j: int| 0 <= j < vs0.len() && #[trigger] vs0[j].fmri@ == key;
                        assert(vs1[j].fmri@ == key);
                    }
                }
                assert forall|key: Seq<char>| (exists|j: int| 0 <= j < vs1.len() && #[trigger] vs1[j].fmri@ == key) implies #[trigger] m2.contains_key(key) by {
                    let j = choose|j: int| 0 <= j < vs1.len() && #[trigger] vs1[j].fmri@ == key;
                    assert(vs0[j].fmri@ == key);
                }
            },
            None => {
                digraph.vertices.push(vtx);
                let ghost vs1 = digraph.vertices@;
                assert(forall|j: int| 0 <= j < vs0.len() ==> #[trigger] vs1[j] == vs0[j]);
                assert forall|key: Seq<char>| #[trigger]
                    m2.contains_key(key) implies exists|j: int| 0 <= j < vs1.len() && #[trigger] vs1[j].fmri@ == key by {
                    if key == raw.fmri@ {
                        assert(vs1[vs0.len() as int].fmri@ == key);
                    } else {
                        assert(m.contains_key(key));
                        let j = choose|j: int| 0 <= j < vs0.len() && #[trigger] vs0[j].fmri@ == key;
                        assert(vs1[j].fmri@ == key);
                    }
                }
                assert forall|key: Seq<char>| (exists|j: int| 0 <= j < vs1.len() && #[trigger] vs1[j].fmri@ == key) implies #[trigger] m2.contains_key(key) by {
                    let j = choose|j: int| 0 <= j < vs1.len() && #[trigger] vs1[j].fmri@ == key;
                    if j < vs0.len() {
                        assert(vs0[j].fmri@ == key);
                    }
                }
            },
        }
        assert(all_models(post)) by {
            assert forall|j: int| 0 <= j < post.len() implies #[trigger] vertex_model(post[j]) is Some by {
                if j < i {
                    assert(post[j] == pre[j]);
                }
            }
        }
        i = i + 1;
    }
    assert(raws.take(raws.len() as int) =~= raws);
    Ok(digraph)
}

/// A property group whose name is `protocol` contributes no property to its
/// vertex, whatever property list it carries.
pub proof fn lemma_protocol_group_skipped(pg: NvList)
    requires
        pg.nvpairs is Some,
        pg_scan(pg.nvpairs.unwrap()@) is Some,
        pg_scan(pg.nvpairs.unwrap()@).unwrap().0 == PROTOCOL_GROUP@,
    ensures
        pg_props(pg) == Some(Seq::<NvList>::empty()),
        props_of_lists(pg_props(pg).unwrap()) == Some(Seq::<(Seq<char>, Seq<char>)>::empty()),
{
    reveal_strlit("protocol");
}

} // verus!
