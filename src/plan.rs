//! What the generated code holds for each node, decided before any text is
//! written: the shape of its entry variant, its transition methods with their
//! signatures, and the names of its payload accessors.
use vstd::prelude::*;
use crate::graph::{find_index, find_node, EdgeModel, Graph, NodeModel};
use crate::text::{chars_are, chars_of, copy_chars, push_str};
use crate::topology::{as_ints, in_indices, kind_of, lemma_in_indices, lemma_out_indices, out_indices, Kind};

verus! {

/// How a node appears in the entry type.
#[derive(Clone, Copy, Debug, PartialEq, Eq, Structural)]
pub enum Shape {
    /// A variant without data.
    Bare,
    /// A variant holding an exclusive reference to the payload.
    Borrowed,
    /// A variant holding a handle bound to the whole machine.
    Handle,
}

/// The signature of a transition method, by whether its source and its
/// destination carry a payload.
#[derive(Clone, Copy, Debug, PartialEq, Eq, Structural)]
pub enum Signature {
    /// `fn m(self)`: neither carries one.
    Plain,
    /// `fn m(self, next: Dst)`: only the destination.
    Takes,
    /// `fn m(self) -> Src`: only the source.
    Gives,
    /// `fn m(self, next: Dst) -> Src`: both.
    Swaps,
}

pub open spec fn shape_of(k: Kind, has_ty: bool) -> Shape {
    match k {
        Kind::Isolate | Kind::Sink => if has_ty {
            Shape::Borrowed
        } else {
            Shape::Bare
        },
        Kind::Source | Kind::NonTerminal => Shape::Handle,
    }
}

pub open spec fn signature_of(src: bool, dst: bool) -> Signature {
    if !src && !dst {
        Signature::Plain
    } else if !src {
        Signature::Takes
    } else if !dst {
        Signature::Gives
    } else {
        Signature::Swaps
    }
}

/// Whether the node called `name` carries a payload.
pub open spec fn node_has_ty(ns: Seq<NodeModel>, name: Seq<char>) -> bool {
    let j = find_node(ns, name);
    0 <= j < ns.len() && ns[j].ty is Some
}

pub struct MethodModel {
    pub name: Seq<char>,
    pub to: Seq<char>,
    pub sig: Signature,
    pub edge: int,
}

pub open spec fn method_model(
    ns: Seq<NodeModel>,
    es: Seq<EdgeModel>,
    src_ty: bool,
    e: int,
) -> MethodModel {
    MethodModel {
        name: es[e].method,
        to: es[e].to,
        sig: signature_of(src_ty, node_has_ty(ns, es[e].to)),
        edge: e,
    }
}

pub open spec fn underscores(k: nat) -> Seq<char> {
    Seq::new(k, |i: int| '_')
}

pub open spec fn max_len(ms: Seq<Seq<char>>) -> nat
    decreases ms.len(),
{
    if ms.len() == 0 {
        0
    } else {
        let m = max_len(ms.drop_last());
        if ms.last().len() > m {
            ms.last().len()
        } else {
            m
        }
    }
}

/// The names of the read and write accessors of a payload: `get` and
/// `get_mut`, unless a method has one of those names; then both are padded
/// with underscores past the length of every method name.
pub open spec fn accessor_names(ms: Seq<Seq<char>>) -> (Seq<char>, Seq<char>) {
    if !ms.contains("get"@) && !ms.contains("get_mut"@) {
        ("get"@, "get_mut"@)
    } else {
        ("get"@ + underscores(max_len(ms)), "get_mut"@ + underscores(max_len(ms)))
    }
}

pub struct VariantModel {
    pub name: Seq<char>,
    pub ty: Option<Seq<char>>,
    pub kind: Kind,
    pub shape: Shape,
    pub methods: Seq<MethodModel>,
    pub incoming: Seq<int>,
    pub accessors: Option<(Seq<char>, Seq<char>)>,
}

pub open spec fn method_names(ms: Seq<MethodModel>) -> Seq<Seq<char>> {
    ms.map_values(|m: MethodModel| m.name)
}

pub open spec fn methods_of(ns: Seq<NodeModel>, es: Seq<EdgeModel>, n: NodeModel) -> Seq<MethodModel> {
    out_indices(es, n.name).map_values(|e: int| method_model(ns, es, n.ty is Some, e))
}

pub open spec fn variant_model(ns: Seq<NodeModel>, es: Seq<EdgeModel>, n: NodeModel) -> VariantModel {
    let k = kind_of(es, n.name);
    let sh = shape_of(k, n.ty is Some);
    VariantModel {
        name: n.name,
        ty: n.ty,
        kind: k,
        shape: sh,
        methods: methods_of(ns, es, n),
        incoming: in_indices(es, n.name),
        accessors: if sh == Shape::Handle && n.ty is Some {
            Some(accessor_names(method_names(methods_of(ns, es, n))))
        } else {
            None
        },
    }
}

/// The plan of a graph: one variant per node, in the order of the nodes.
pub open spec fn plan_spec(ns: Seq<NodeModel>, es: Seq<EdgeModel>) -> Seq<VariantModel> {
    ns.map_values(|n: NodeModel| variant_model(ns, es, n))
}

/// One transition method of a handle.
pub struct MethodPlan {
    pub name: Vec<char>,
    pub to: Vec<char>,
    pub sig: Signature,
    /// The edge it comes from, as an index into the graph's edges.
    pub edge: usize,
}

/// Everything generated for one node.
pub struct VariantPlan {
    pub name: Vec<char>,
    pub ty: Option<Vec<char>>,
    pub kind: Kind,
    pub shape: Shape,
    pub methods: Vec<MethodPlan>,
    /// The edges that enter the node, as indices into the graph's edges.
    pub incoming: Vec<usize>,
    pub accessors: Option<(Vec<char>, Vec<char>)>,
}

impl View for MethodPlan {
    type V = MethodModel;

    open spec fn view(&self) -> MethodModel {
        MethodModel { name: self.name@, to: self.to@, sig: self.sig, edge: self.edge as int }
    }
}

pub open spec fn accessor_model(a: Option<(Vec<char>, Vec<char>)>) -> Option<(Seq<char>, Seq<char>)> {
    match a {
        Some((r, w)) => Some((r@, w@)),
        None => None,
    }
}

impl View for VariantPlan {
    type V = VariantModel;

    open spec fn view(&self) -> VariantModel {
        VariantModel {
            name: self.name@,
            ty: crate::graph::opt(self.ty),
            kind: self.kind,
            shape: self.shape,
            methods: self.methods@.map_values(|m: MethodPlan| m@),
            incoming: as_ints(self.incoming@),
            accessors: accessor_model(self.accessors),
        }
    }
}

pub open spec fn variant_models(v: Seq<VariantPlan>) -> Seq<VariantModel> {
    v.map_values(|p: VariantPlan| p@)
}

pub fn shape(k: Kind, has_ty: bool) -> (r: Shape)
    ensures
        r == shape_of(k, has_ty),
{
    match k {
        Kind::Isolate | Kind::Sink => if has_ty {
            Shape::Borrowed
        } else {
            Shape::Bare
        },
        Kind::Source | Kind::NonTerminal => Shape::Handle,
    }
}

pub fn signature(src: bool, dst: bool) -> (r: Signature)
    ensures
        r == signature_of(src, dst),
{
    if !src && !dst {
        Signature::Plain
    } else if !src {
        Signature::Takes
    } else if !dst {
        Signature::Gives
    } else {
        Signature::Swaps
    }
}

/// Whether the node called `name` carries a payload.
pub fn has_payload(g: &Graph, name: &Vec<char>) -> (r: bool)
    ensures
        r == node_has_ty(g.nodes_m(), name@),
{
    match find_index(&g.nodes, name) {
        Some(j) => g.nodes[j].ty.is_some(),
        None => false,
    }
}

/// The accessor names for a handle whose methods have these names.
pub fn pick_accessors(ms: &Vec<MethodPlan>) -> (r: (Vec<char>, Vec<char>))
    ensures
        (r.0@, r.1@) == accessor_names(method_names(ms@.map_values(|m: MethodPlan| m@))),
{
    let ghost names = method_names(ms@.map_values(|m: MethodPlan| m@));
    let mut clash = false;
    let mut longest: usize = 0;
    let mut i: usize = 0;
    while i < ms.len()
        invariant
            i <= ms@.len(),
            names == method_names(ms@.map_values(|m: MethodPlan| m@)),
            clash == (names.subrange(0, i as int).contains("get"@) || names.subrange(
                0,
                i as int,
            ).contains("get_mut"@)),
            longest as nat == max_len(names.subrange(0, i as int)),
        decreases ms@.len() - i,
    {
        let ghost prev = names.subrange(0, i as int);
        let is_get = chars_are(&ms[i].name, "get");
        let is_get_mut = chars_are(&ms[i].name, "get_mut");
        if is_get || is_get_mut {
            clash = true;
        }
        if ms[i].name.len() > longest {
            longest = ms[i].name.len();
        }
        proof {
            let next = names.subrange(0, i + 1);
            assert(next.drop_last() =~= prev);
            assert(next.last() == ms@[i as int].name@);
            assert(next =~= prev.push(ms@[i as int].name@));
            assert(next.contains("get"@) == (prev.contains("get"@) || ms@[i as int].name@ == "get"@)) by {
                if next.contains("get"@) && ms@[i as int].name@ != "get"@ {
                    let k = choose|k: int| 0 <= k < next.len() && next[k] == "get"@;
                    assert(prev[k] == "get"@);
                }
                if prev.contains("get"@) {
                    let k = choose|k: int| 0 <= k < prev.len() && prev[k] == "get"@;
                    assert(next[k] == "get"@);
                }
                if ms@[i as int].name@ == "get"@ {
                    assert(next[i as int] == "get"@);
                }
            }
            assert(next.contains("get_mut"@) == (prev.contains("get_mut"@) || ms@[i as int].name@
                == "get_mut"@)) by {
                if next.contains("get_mut"@) && ms@[i as int].name@ != "get_mut"@ {
                    let k = choose|k: int| 0 <= k < next.len() && next[k] == "get_mut"@;
                    assert(prev[k] == "get_mut"@);
                }
                if prev.contains("get_mut"@) {
                    let k = choose|k: int| 0 <= k < prev.len() && prev[k] == "get_mut"@;
                    assert(next[k] == "get_mut"@);
                }
                if ms@[i as int].name@ == "get_mut"@ {
                    assert(next[i as int] == "get_mut"@);
                }
            }
        }
        i = i + 1;
    }
    proof {
        assert(names.subrange(0, ms@.len() as int) =~= names);
    }
    let mut read = chars_of("get");
    let mut write = chars_of("get_mut");
    if clash {
        let mut k: usize = 0;
        while k < longest
            invariant
                k <= longest,
                read@ == "get"@ + underscores(k as nat),
                write@ == "get_mut"@ + underscores(k as nat),
            decreases longest - k,
        {
            read.push('_');
            write.push('_');
            k = k + 1;
            proof {
                assert(read@ =~= "get"@ + underscores(k as nat));
                assert(write@ =~= "get_mut"@ + underscores(k as nat));
            }
        }
    }
    (read, write)
}

/// The transition methods of node `n`, one per edge that leaves it.
pub fn plan_methods(g: &Graph, n: usize) -> (r: Vec<MethodPlan>)
    requires
        n < g.nodes@.len(),
    ensures
        r@.map_values(|m: MethodPlan| m@) == methods_of(g.nodes_m(), g.edges_m(), g.nodes_m()[n as int]),
{
    let ghost ns = g.nodes_m();
    let ghost es = g.edges_m();
    let ghost node = ns[n as int];
    let out = g.outgoing(&g.nodes[n].name);
    proof {
        lemma_out_indices(es, node.name);
    }
    let src_ty = g.nodes[n].ty.is_some();
    let mut r: Vec<MethodPlan> = Vec::new();
    let mut k: usize = 0;
    while k < out.len()
        invariant
            k <= out@.len(),
            ns == g.nodes_m(),
            es == g.edges_m(),
            node == ns[n as int],
            src_ty == (node.ty is Some),
            as_ints(out@) == out_indices(es, node.name),
            forall|j: int|
                0 <= j < out_indices(es, node.name).len() ==> 0 <= #[trigger] out_indices(
                    es,
                    node.name,
                )[j] < es.len(),
            r@.len() == k,
            forall|j: int|
                0 <= j < k ==> (#[trigger] r@[j])@ == method_model(
                    ns,
                    es,
                    src_ty,
                    out_indices(es, node.name)[j],
                ),
        decreases out@.len() - k,
    {
        let e = out[k];
        proof {
            assert(as_ints(out@)[k as int] == e as int);
        }
        let dst = has_payload(g, &g.edges[e].to);
        r.push(
            MethodPlan {
                name: copy_chars(&g.edges[e].method),
                to: copy_chars(&g.edges[e].to),
                sig: signature(src_ty, dst),
                edge: e,
            },
        );
        k = k + 1;
    }
    proof {
        assert(r@.map_values(|m: MethodPlan| m@) =~= methods_of(ns, es, node));
    }
    r
}

/// The plan of the whole graph, as `plan_spec` describes it.
pub fn plan(g: &Graph) -> (r: Vec<VariantPlan>)
    ensures
        variant_models(r@) == plan_spec(g.nodes_m(), g.edges_m()),
{
    let ghost ns = g.nodes_m();
    let ghost es = g.edges_m();
    let mut r: Vec<VariantPlan> = Vec::new();
    let mut i: usize = 0;
    while i < g.nodes.len()
        invariant
            i <= g.nodes@.len(),
            ns == g.nodes_m(),
            es == g.edges_m(),
            r@.len() == i,
            forall|j: int| 0 <= j < i ==> (#[trigger] r@[j])@ == variant_model(ns, es, ns[j]),
        decreases g.nodes@.len() - i,
    {
        let name = &g.nodes[i].name;
        let kind = g.kind(name);
        let has_ty = g.nodes[i].ty.is_some();
        let sh = shape(kind, has_ty);
        let methods = plan_methods(g, i);
        let accessors = if sh == Shape::Handle && has_ty {
            Some(pick_accessors(&methods))
        } else {
            None
        };
        let incoming = g.incoming(name);
        let ghost mm = methods@.map_values(|m: MethodPlan| m@);
        let v = VariantPlan {
            name: copy_chars(name),
            ty: crate::graph::copy_opt(&g.nodes[i].ty),
            kind,
            shape: sh,
            methods,
            incoming,
            accessors,
        };
        proof {
            assert(v@.methods == mm);
            assert(v@ == variant_model(ns, es, ns[i as int]));
        }
        r.push(v);
        i = i + 1;
    }
    proof {
        assert(variant_models(r@) =~= plan_spec(ns, es));
    }
    r
}

} // verus!
