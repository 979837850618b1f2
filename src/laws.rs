//! Properties of the generator as a whole, proved over the specifications
//! that the functions' contracts use.
use vstd::prelude::*;
use crate::error::{Error, ErrorKind};
use crate::graph::{
    add_edge, build_spec, chain_decls, chain_links, chain_refs, decls, find_from, find_node,
    fold_edges, fold_nodes, has_method, has_pair, lemma_fold_edges_err, lemma_fold_nodes_err,
    lemma_sort_by, lemma_sort_no_conflict, no_conflict, sort_by, node_lt, edge_lt,
    link_method, links, merge, node_decls, ArrowModel,
    DeclModel, EdgeModel, LinkModel, NodeModel,
};
use crate::machine::generated;
use crate::plan::{
    VariantModel, variant_model, accessor_names, max_len, method_model, method_names, methods_of, node_has_ty, plan_spec,
    shape_of, signature_of, underscores,
};
use crate::names::{derived_method, rust_ident};
use crate::syntax::{
    arrow_at, machine_at, name_at, steps_from, stmt_at, stmt_wf, stmts_from, trivia_end, word_at,
    word_end, StepModel,
};
use crate::machine::graph_of_text;
use crate::render::CtxModel;
use crate::syntax::StmtModel;
use crate::topology::{kind_of, lemma_out_indices, out_indices};

verus! {

/// Checking the same statements twice gives the same graph, and generating
/// twice from the same graph and configuration gives the same text.
pub proof fn law_deterministic(
    ss: Seq<StmtModel>,
    rename: bool,
    at: usize,
    doc: Seq<Seq<char>>,
    c: CtxModel,
    diagram: Option<Seq<char>>,
    g1: (Seq<NodeModel>, Seq<EdgeModel>),
    g2: (Seq<NodeModel>, Seq<EdgeModel>),
    r1: Seq<char>,
    r2: Seq<char>,
)
    requires
        build_spec(ss, rename, at) == Ok::<(Seq<NodeModel>, Seq<EdgeModel>), Error>(g1),
        build_spec(ss, rename, at) == Ok::<(Seq<NodeModel>, Seq<EdgeModel>), Error>(g2),
        r1 == generated(doc, c, g1.0, g1.1, diagram),
        r2 == generated(doc, c, g2.0, g2.1, diagram),
    ensures
        g1 == g2,
        r1 == r2,
{
}

/// Statements without any transition are refused; where every node
/// declaration agrees, the failure is that no edge was defined.
pub proof fn law_no_edges_rejected(ss: Seq<StmtModel>, rename: bool, at: usize)
    requires
        links(ss).len() == 0,
    ensures
        build_spec(ss, rename, at) is Err,
        fold_nodes(decls(ss)) is Ok ==> build_spec(ss, rename, at) == Err::<
            (Seq<NodeModel>, Seq<EdgeModel>),
            Error,
        >(Error { kind: ErrorKind::NoEdges, pos: at }),
{
}

/// No two nodes share a name.
pub open spec fn names_unique(ns: Seq<NodeModel>) -> bool {
    forall|i: int, j: int| 0 <= i < j < ns.len() ==> ns[i].name != ns[j].name
}

pub proof fn lemma_find_from(ns: Seq<NodeModel>, name: Seq<char>, i: int)
    requires
        0 <= i,
    ensures
        find_from(ns, name, i) == -1 ==> forall|k: int| i <= k < ns.len() ==> ns[k].name != name,
        find_from(ns, name, i) != -1 ==> i <= find_from(ns, name, i) < ns.len() && ns[find_from(
            ns,
            name,
            i,
        )].name == name && forall|k: int| i <= k < find_from(ns, name, i) ==> ns[k].name != name,
    decreases ns.len() - i,
{
    if i < ns.len() && ns[i].name != name {
        lemma_find_from(ns, name, i + 1);
    }
}

/// Where names are unique, the node found under a name is the only one.
pub proof fn lemma_find_unique(ns: Seq<NodeModel>, k: int)
    requires
        names_unique(ns),
        0 <= k < ns.len(),
    ensures
        find_node(ns, ns[k].name) == k,
{
    lemma_find_from(ns, ns[k].name, 0);
}

pub proof fn lemma_fold_nodes_err_kind(ds: Seq<DeclModel>)
    ensures
        fold_nodes(ds) matches Err(e) ==> e.kind == ErrorKind::IncompatibleRedefinition,
    decreases ds.len(),
{
    if ds.len() > 0 {
        lemma_fold_nodes_err_kind(ds.drop_last());
    }
}

/// Folding mentions keeps node names unique, and every mentioned name has a node.
pub proof fn lemma_fold_nodes_names(ds: Seq<DeclModel>)
    ensures
        fold_nodes(ds) matches Ok(ns) ==> names_unique(ns) && forall|i: int|
            0 <= i < ds.len() ==> exists|j: int| 0 <= j < ns.len() && ns[j].name == (#[trigger] ds[i]).name,
    decreases ds.len(),
{
    if ds.len() > 0 {
        let p = ds.drop_last();
        lemma_fold_nodes_names(p);
        if let Ok(ps) = fold_nodes(p) {
            let d = ds.last();
            lemma_find_from(ps, d.name, 0);
            if let Ok(ns) = merge(ps, d) {
                let j = find_node(ps, d.name);
                assert(forall|k: int| 0 <= k < ps.len() ==> ns[k].name == ps[k].name);
                assert forall|i: int| 0 <= i < ds.len() implies exists|j: int|
                    0 <= j < ns.len() && ns[j].name == (#[trigger] ds[i]).name by {
                    if i < ds.len() - 1 {
                        assert(p[i] == ds[i]);
                        let k = choose|k: int| 0 <= k < ps.len() && ps[k].name == p[i].name;
                        assert(ns[k].name == ds[i].name);
                    } else if j < 0 {
                        assert(ns[ps.len() as int].name == ds[i].name);
                    } else {
                        assert(ns[j].name == ds[i].name);
                    }
                }
            }
        }
    }
}

/// Every node of a valid graph has exactly one variant in the generated
/// entry type, and its shape is the one that the node's role and payload decide.
pub proof fn law_completeness(
    ns: Seq<NodeModel>,
    es: Seq<EdgeModel>,
)
    requires
        crate::laws::graph_wf(ns, es),
    ensures
        plan_spec(ns, es).len() == ns.len(),
        forall|i: int|
            0 <= i < ns.len() ==> (#[trigger] plan_spec(ns, es)[i]).name == ns[i].name
                && plan_spec(ns, es)[i].shape == shape_of(kind_of(es, ns[i].name), ns[i].ty is Some),
        forall|i: int, j: int|
            0 <= i < ns.len() && 0 <= j < ns.len() && (#[trigger] plan_spec(ns, es)[j]).name
                == (#[trigger] ns[i]).name ==> i == j,
{
}

/// Both ends of every link are mentioned among the chains' nodes.
pub proof fn lemma_links_in_decls(ss: Seq<StmtModel>)
    ensures
        forall|k: int|
            0 <= k < links(ss).len() ==> (exists|i: int|
                0 <= i < chain_decls(ss).len() && chain_decls(ss)[i].name == (#[trigger] links(
                    ss,
                )[k]).from) && (exists|i: int|
                0 <= i < chain_decls(ss).len() && chain_decls(ss)[i].name == links(ss)[k].to),
    decreases ss.len(),
{
    if ss.len() > 0 {
        let p = ss.drop_last();
        lemma_links_in_decls(p);
        let lp = links(p);
        let dp = chain_decls(p);
        assert forall|k: int| 0 <= k < links(ss).len() implies (exists|i: int|
            0 <= i < chain_decls(ss).len() && chain_decls(ss)[i].name == (#[trigger] links(
                ss,
            )[k]).from) && (exists|i: int|
            0 <= i < chain_decls(ss).len() && chain_decls(ss)[i].name == links(ss)[k].to) by {
            if k < lp.len() {
                assert(links(ss)[k] == lp[k]);
                let i1 = choose|i: int| 0 <= i < dp.len() && dp[i].name == lp[k].from;
                let i2 = choose|i: int| 0 <= i < dp.len() && dp[i].name == lp[k].to;
                assert(chain_decls(ss)[i1] == dp[i1]);
                assert(chain_decls(ss)[i2] == dp[i2]);
            } else {
                if let StmtModel::Chain { doc, first, pos, steps } = ss.last() {
                    let m = k - lp.len();
                    assert(links(ss)[k] == chain_links(doc, first, steps)[m]);
                    let refs = chain_refs(first, pos, steps);
                    assert(chain_decls(ss)[dp.len() + m] == refs[m]);
                    assert(chain_decls(ss)[dp.len() + m + 1] == refs[m + 1]);
                    assert(refs[m + 1].name == steps[m].to);
                    if m > 0 {
                        assert(refs[m].name == steps[m - 1].to);
                    }
                }
            }
        }
    }
}

/// What the edges of a successful fold owe to the links: each edge comes
/// from one link with its method name, no two edges from one node share a
/// method name, and every link's pair is present.
pub proof fn lemma_fold_edges_facts(ls: Seq<LinkModel>, rename: bool)
    ensures
        fold_edges(ls, rename) matches Ok(es) ==> {
            &&& forall|e: int|
                0 <= e < es.len() ==> exists|k: int|
                    0 <= k < ls.len() && ls[k].from == (#[trigger] es[e]).from && ls[k].to == es[e].to
                        && link_method(ls[k], rename) == Some(es[e].method)
            &&& forall|e1: int, e2: int|
                0 <= e1 < es.len() && 0 <= e2 < es.len() && e1 != e2 && (#[trigger] es[e1]).from
                    == (#[trigger] es[e2]).from ==> es[e1].method != es[e2].method
            &&& forall|k: int| 0 <= k < ls.len() ==> has_pair(es, (#[trigger] ls[k]).from, ls[k].to)
            &&& forall|e1: int, e2: int|
                0 <= e1 < es.len() && 0 <= e2 < es.len() && e1 != e2 && (#[trigger] es[e1]).from
                    == (#[trigger] es[e2]).from ==> es[e1].to != es[e2].to
        },
    decreases ls.len(),
{
    if ls.len() > 0 {
        let p = ls.drop_last();
        lemma_fold_edges_facts(p, rename);
        if let Ok(ps) = fold_edges(p, rename) {
            let l = ls.last();
            if let Ok(es) = add_edge(ps, l, rename) {
                let m = link_method(l, rename)->Some_0;
                assert(es == ps.push(
                    EdgeModel { from: l.from, to: l.to, method: m, doc: crate::graph::link_doc(l) },
                ));
                assert forall|e: int| 0 <= e < es.len() implies exists|k: int|
                    0 <= k < ls.len() && ls[k].from == (#[trigger] es[e]).from && ls[k].to
                        == es[e].to && link_method(ls[k], rename) == Some(es[e].method) by {
                    if e < ps.len() {
                        let k = choose|k: int|
                            0 <= k < p.len() && p[k].from == ps[e].from && p[k].to == ps[e].to
                                && link_method(p[k], rename) == Some(ps[e].method);
                        assert(ls[k] == p[k]);
                    } else {
                        assert(ls[ls.len() - 1] == l);
                    }
                }
                assert forall|e1: int, e2: int|
                    0 <= e1 < es.len() && 0 <= e2 < es.len() && e1 != e2 && (#[trigger] es[e1]).from
                        == (#[trigger] es[e2]).from implies es[e1].method != es[e2].method by {
                    if e1 == ps.len() && es[e1].method == es[e2].method {
                        assert(ps[e2] == es[e2]);
                        assert(has_method(ps, l.from, m));
                    }
                    if e2 == ps.len() && es[e1].method == es[e2].method {
                        assert(ps[e1] == es[e1]);
                        assert(has_method(ps, l.from, m));
                    }
                    if e1 < ps.len() && e2 < ps.len() {
                        assert(ps[e1] == es[e1] && ps[e2] == es[e2]);
                    }
                }
                assert forall|e1: int, e2: int|
                    0 <= e1 < es.len() && 0 <= e2 < es.len() && e1 != e2 && (#[trigger] es[e1]).from
                        == (#[trigger] es[e2]).from implies es[e1].to != es[e2].to by {
                    if e1 == ps.len() && es[e1].to == es[e2].to {
                        assert(ps[e2] == es[e2]);
                        assert(has_pair(ps, l.from, l.to));
                    }
                    if e2 == ps.len() && es[e1].to == es[e2].to {
                        assert(ps[e1] == es[e1]);
                        assert(has_pair(ps, l.from, l.to));
                    }
                    if e1 < ps.len() && e2 < ps.len() {
                        assert(ps[e1] == es[e1] && ps[e2] == es[e2]);
                    }
                }
                assert forall|k: int| 0 <= k < ls.len() implies has_pair(
                    es,
                    (#[trigger] ls[k]).from,
                    ls[k].to,
                ) by {
                    if k < p.len() {
                        assert(p[k] == ls[k]);
                        assert(has_pair(ps, p[k].from, p[k].to));
                        let i = choose|i: int|
                            0 <= i < ps.len() && (#[trigger] ps[i]).from == p[k].from && ps[i].to
                                == p[k].to;
                        assert(es[i] == ps[i]);
                    } else {
                        assert(es[ps.len() as int].from == l.from && es[ps.len() as int].to == l.to);
                    }
                }
            }
        }
    }
}

/// What the folds give before sorting: unique node names, every edge's ends
/// among the nodes, and every edge from one link with its method name.
pub proof fn lemma_folded_graph(ss: Seq<StmtModel>, rename: bool)
    requires
        fold_nodes(decls(ss)) is Ok,
        fold_edges(links(ss), rename) is Ok,
    ensures
        ({
            let ns0 = fold_nodes(decls(ss))->Ok_0;
            let es0 = fold_edges(links(ss), rename)->Ok_0;
            &&& names_unique(ns0)
            &&& forall|e: int|
                0 <= e < es0.len() ==> (exists|j: int|
                    0 <= j < ns0.len() && ns0[j].name == (#[trigger] es0[e]).from) && (exists|j: int|
                    0 <= j < ns0.len() && ns0[j].name == es0[e].to)
        }),
{
    let ds = decls(ss);
    let ls = links(ss);
    let ns0 = fold_nodes(ds)->Ok_0;
    let es0 = fold_edges(ls, rename)->Ok_0;
    lemma_fold_nodes_names(ds);
    lemma_fold_edges_facts(ls, rename);
    lemma_links_in_decls(ss);
    assert forall|e: int| 0 <= e < es0.len() implies (exists|j: int|
        0 <= j < ns0.len() && ns0[j].name == (#[trigger] es0[e]).from) && (exists|j: int|
        0 <= j < ns0.len() && ns0[j].name == es0[e].to) by {
        let k = choose|k: int|
            0 <= k < ls.len() && ls[k].from == es0[e].from && ls[k].to == es0[e].to && link_method(
                ls[k],
                rename,
            ) == Some(es0[e].method);
        let cd = chain_decls(ss);
        let nd = node_decls(ss);
        let i1 = choose|i: int| 0 <= i < cd.len() && cd[i].name == ls[k].from;
        let i2 = choose|i: int| 0 <= i < cd.len() && cd[i].name == ls[k].to;
        assert(ds[nd.len() + i1] == cd[i1]);
        assert(ds[nd.len() + i2] == cd[i2]);
    }
}

/// Sorting keeps node names unique.
pub proof fn lemma_sorted_names(ns0: Seq<NodeModel>)
    requires
        names_unique(ns0),
    ensures
        names_unique(sort_by(ns0, node_lt())),
{
    let same_name = |a: NodeModel, b: NodeModel| a.name == b.name;
    assert(no_conflict(ns0, same_name)) by {
        assert forall|i: int, j: int|
            0 <= i < ns0.len() && 0 <= j < ns0.len() && i != j implies !same_name(
                #[trigger] ns0[i],
                #[trigger] ns0[j],
            ) by {
            if i > j {
                assert(ns0[j].name != ns0[i].name);
            }
        }
    }
    lemma_sort_no_conflict(ns0, node_lt(), same_name);
    let ns = sort_by(ns0, node_lt());
    assert forall|i: int, j: int| 0 <= i < j < ns.len() implies ns[i].name != ns[j].name by {
        assert(!same_name(ns[i], ns[j]));
    }
}

/// Sorting keeps edges from one node apart in destination and method name.
pub proof fn lemma_sorted_edges(es0: Seq<EdgeModel>)
    requires
        forall|e1: int, e2: int|
            0 <= e1 < es0.len() && 0 <= e2 < es0.len() && e1 != e2 && (#[trigger] es0[e1]).from
                == (#[trigger] es0[e2]).from ==> es0[e1].method != es0[e2].method && es0[e1].to
                != es0[e2].to,
    ensures
        ({
            let es = sort_by(es0, edge_lt());
            forall|e1: int, e2: int|
                0 <= e1 < es.len() && 0 <= e2 < es.len() && e1 != e2 && (#[trigger] es[e1]).from
                    == (#[trigger] es[e2]).from ==> es[e1].method != es[e2].method && es[e1].to
                    != es[e2].to
        }),
{
    let clash = |a: EdgeModel, b: EdgeModel| a.from == b.from && (a.method == b.method || a.to == b.to);
    assert(no_conflict(es0, clash)) by {
        assert forall|i: int, j: int|
            0 <= i < es0.len() && 0 <= j < es0.len() && i != j implies !clash(
                #[trigger] es0[i],
                #[trigger] es0[j],
            ) by {
            if es0[i].from == es0[j].from {
                assert(es0[i].method != es0[j].method);
            }
        }
    }
    lemma_sort_no_conflict(es0, edge_lt(), clash);
    let es = sort_by(es0, edge_lt());
    assert forall|e1: int, e2: int|
        0 <= e1 < es.len() && 0 <= e2 < es.len() && e1 != e2 && (#[trigger] es[e1]).from
            == (#[trigger] es[e2]).from implies es[e1].method != es[e2].method && es[e1].to
            != es[e2].to by {
        assert(!clash(es[e1], es[e2]));
    }
}

/// The nodes and edges of a checked graph: node names are unique, every
/// edge's ends are nodes, every edge comes from one link with its method
/// name, and no two edges from one node share a destination or a method name.
#[verifier::rlimit(80)]
pub proof fn lemma_checked_graph(
    ss: Seq<StmtModel>,
    rename: bool,
    at: usize,
    ns: Seq<NodeModel>,
    es: Seq<EdgeModel>,
)
    requires
        build_spec(ss, rename, at) == Ok::<(Seq<NodeModel>, Seq<EdgeModel>), Error>((ns, es)),
    ensures
        names_unique(ns),
        es.len() > 0,
        forall|e: int|
            0 <= e < es.len() ==> 0 <= find_node(ns, (#[trigger] es[e]).from) < ns.len() && ns[find_node(
                ns,
                es[e].from,
            )].name == es[e].from && 0 <= find_node(ns, es[e].to) < ns.len() && ns[find_node(
                ns,
                es[e].to,
            )].name == es[e].to,
        forall|e: int|
            0 <= e < es.len() ==> exists|k: int|
                0 <= k < links(ss).len() && links(ss)[k].from == (#[trigger] es[e]).from
                    && links(ss)[k].to == es[e].to && link_method(links(ss)[k], rename) == Some(
                    es[e].method,
                ),
        forall|e1: int, e2: int|
            0 <= e1 < es.len() && 0 <= e2 < es.len() && e1 != e2 && (#[trigger] es[e1]).from
                == (#[trigger] es[e2]).from ==> es[e1].method != es[e2].method && es[e1].to
                != es[e2].to,
{
    let ls = links(ss);
    let ns0 = fold_nodes(decls(ss))->Ok_0;
    let es0 = fold_edges(ls, rename)->Ok_0;
    assert(ns == sort_by(ns0, node_lt()) && es == sort_by(es0, edge_lt()));
    assert(names_unique(ns)) by {
        lemma_folded_graph(ss, rename);
        lemma_sorted_names(ns0);
    }
    assert(forall|e1: int, e2: int|
        0 <= e1 < es.len() && 0 <= e2 < es.len() && e1 != e2 && (#[trigger] es[e1]).from
            == (#[trigger] es[e2]).from ==> es[e1].method != es[e2].method && es[e1].to
            != es[e2].to) by {
        lemma_fold_edges_facts(ls, rename);
        lemma_sorted_edges(es0);
    }
    assert forall|e: int| 0 <= e < es.len() implies exists|k: int|
        0 <= k < ls.len() && ls[k].from == (#[trigger] es[e]).from && ls[k].to == es[e].to
            && link_method(ls[k], rename) == Some(es[e].method) by {
        lemma_fold_edges_facts(ls, rename);
        lemma_sort_by(es0, edge_lt());
        let j = choose|j: int| 0 <= j < es0.len() && es[e] == es0[j];
        assert(es0[j] == es[e]);
    }
    assert forall|e: int| 0 <= e < es.len() implies 0 <= find_node(ns, (#[trigger] es[e]).from)
        < ns.len() && ns[find_node(ns, es[e].from)].name == es[e].from && 0 <= find_node(
        ns,
        es[e].to,
    ) < ns.len() && ns[find_node(ns, es[e].to)].name == es[e].to by {
        lemma_folded_graph(ss, rename);
        lemma_sort_by(ns0, node_lt());
        lemma_sort_by(es0, edge_lt());
        let j = choose|j: int| 0 <= j < es0.len() && es[e] == es0[j];
        assert(es0[j] == es[e]);
        let j1 = choose|x: int| 0 <= x < ns0.len() && ns0[x].name == (#[trigger] es0[j]).from;
        let j2 = choose|x: int| 0 <= x < ns0.len() && ns0[x].name == es0[j].to;
        let m1 = choose|i: int| 0 <= i < ns.len() && ns[i] == #[trigger] ns0[j1];
        let m2 = choose|i: int| 0 <= i < ns.len() && ns[i] == #[trigger] ns0[j2];
        lemma_find_unique(ns, m1);
        lemma_find_unique(ns, m2);
    }
}

/// For every edge `(A, B)` of a checked graph, the handle of `A` has exactly
/// one method with the edge's method name, and its signature is the one that
/// the payloads of `A` and `B` decide.
pub proof fn law_transition_coverage(
    ns: Seq<NodeModel>,
    es: Seq<EdgeModel>,
    e: int,
)
    requires
        crate::laws::graph_wf(ns, es),
        0 <= e < es.len(),
    ensures
        ({
            let a = find_node(ns, es[e].from);
            let ms = plan_spec(ns, es)[a].methods;
            &&& 0 <= a < ns.len()
            &&& ns[a].name == es[e].from
            &&& exists|k: int|
                0 <= k < ms.len() && (#[trigger] ms[k]).name == es[e].method && ms[k].edge == e
                    && ms[k].to == es[e].to && ms[k].sig == signature_of(
                    ns[a].ty is Some,
                    node_has_ty(ns, es[e].to),
                )
            &&& forall|k1: int, k2: int|
                0 <= k1 < ms.len() && 0 <= k2 < ms.len() && (#[trigger] ms[k1]).name == es[e].method
                    && (#[trigger] ms[k2]).name == es[e].method ==> k1 == k2
        }),
{
    let a = find_node(ns, es[e].from);
    let n = ns[a];
    let out = out_indices(es, n.name);
    lemma_out_indices(es, n.name);
    let ms = plan_spec(ns, es)[a].methods;
    assert(ms == methods_of(ns, es, n));
    let k = choose|k: int| 0 <= k < out.len() && out[k] == e;
    assert(ms[k] == method_model(ns, es, n.ty is Some, e));
    assert forall|k1: int, k2: int|
        0 <= k1 < ms.len() && 0 <= k2 < ms.len() && (#[trigger] ms[k1]).name == es[e].method
            && (#[trigger] ms[k2]).name == es[e].method implies k1 == k2 by {
        assert(ms[k1].edge == out[k1] && ms[k2].edge == out[k2]);
        assert(es[out[k1]].from == n.name && es[out[k2]].from == n.name);
        if out[k1] != out[k2] {
            assert(es[out[k1]].method != es[out[k2]].method);
        }
        if k1 < k2 {
            assert(out[k1] < out[k2]);
        }
        if k2 < k1 {
            assert(out[k2] < out[k1]);
        }
    }
}

/// Declaring the same directed edge twice is refused, whatever the arrows;
/// where nothing failed before the second declaration, it fails as a
/// duplicate edge.
pub proof fn law_duplicate_edge_rejected(
    ss: Seq<StmtModel>,
    rename: bool,
    at: usize,
    i: int,
    j: int,
)
    requires
        0 <= i < j < links(ss).len(),
        links(ss)[i].from == links(ss)[j].from,
        links(ss)[i].to == links(ss)[j].to,
    ensures
        build_spec(ss, rename, at) is Err,
        fold_nodes(decls(ss)) is Ok && fold_edges(links(ss).subrange(0, j), rename) is Ok
            ==> build_spec(ss, rename, at) == Err::<(Seq<NodeModel>, Seq<EdgeModel>), Error>(
            Error { kind: ErrorKind::DuplicateEdge, pos: links(ss)[j].pos },
        ),
{
    let ls = links(ss);
    let pre = ls.subrange(0, j);
    if let Ok(ps) = fold_edges(pre, rename) {
        lemma_fold_edges_facts(pre, rename);
        assert(pre[i] == ls[i]);
        assert(has_pair(ps, ls[j].from, ls[j].to));
        assert(ls.subrange(0, j + 1).drop_last() =~= pre);
        lemma_fold_edges_err(ls, rename, j + 1);
    } else {
        lemma_fold_edges_err(ls, rename, j);
    }
}

/// Once a node has a payload type, every later successful fold keeps a node
/// of that name with that type.
pub proof fn lemma_type_sticks(ds: Seq<DeclModel>, i: int, k: int)
    requires
        0 <= i < k <= ds.len(),
        ds[i].ty is Some,
        fold_nodes(ds.subrange(0, k)) is Ok,
    ensures
        exists|x: int|
            0 <= x < fold_nodes(ds.subrange(0, k))->Ok_0.len() && (#[trigger] fold_nodes(
                ds.subrange(0, k),
            )->Ok_0[x]).name == ds[i].name && fold_nodes(ds.subrange(0, k))->Ok_0[x].ty == ds[i].ty,
    decreases k - i,
{
    let cur = ds.subrange(0, k);
    let prev = ds.subrange(0, k - 1);
    assert(cur.drop_last() =~= prev);
    let ps = fold_nodes(prev)->Ok_0;
    let d = ds[k - 1];
    let ns = fold_nodes(cur)->Ok_0;
    lemma_find_from(ps, d.name, 0);
    let j = find_node(ps, d.name);
    if k - 1 == i {
        if j < 0 {
            assert(ns[ps.len() as int].name == d.name);
        } else {
            assert(ns[j].name == d.name && ns[j].ty == d.ty);
        }
    } else {
        lemma_type_sticks(ds, i, k - 1);
        let x = choose|x: int|
            0 <= x < ps.len() && (#[trigger] ps[x]).name == ds[i].name && ps[x].ty == ds[i].ty;
        assert(ns[x].name == ds[i].name && ns[x].ty == ds[i].ty);
    }
}

/// Declaring one node twice with different payload types is refused as an
/// incompatible redefinition.
pub proof fn law_incompatible_redefinition_rejected(
    ss: Seq<StmtModel>,
    rename: bool,
    at: usize,
    i: int,
    j: int,
)
    requires
        0 <= i < j < decls(ss).len(),
        decls(ss)[i].name == decls(ss)[j].name,
        decls(ss)[i].ty is Some,
        decls(ss)[j].ty is Some,
        decls(ss)[i].ty != decls(ss)[j].ty,
    ensures
        build_spec(ss, rename, at) matches Err(e) && e.kind == ErrorKind::IncompatibleRedefinition,
{
    let ds = decls(ss);
    let pre = ds.subrange(0, j);
    if fold_nodes(pre) is Ok {
        let ps = fold_nodes(pre)->Ok_0;
        lemma_type_sticks(ds, i, j);
        let x = choose|x: int|
            0 <= x < ps.len() && (#[trigger] ps[x]).name == ds[i].name && ps[x].ty == ds[i].ty;
        lemma_fold_nodes_names(pre);
        lemma_find_unique(ps, x);
        assert(ds.subrange(0, j + 1).drop_last() =~= pre);
        lemma_fold_nodes_err(ds, j + 1);
    } else {
        lemma_fold_nodes_err(ds, j);
        lemma_fold_nodes_err_kind(pre);
    }
}

/// Named arrows of well-formed statements name identifiers.
pub proof fn lemma_links_named(ss: Seq<StmtModel>)
    requires
        forall|i: int| 0 <= i < ss.len() ==> stmt_wf(#[trigger] ss[i]),
    ensures
        forall|k: int|
            0 <= k < links(ss).len() ==> ((#[trigger] links(ss)[k]).arrow matches ArrowModel::Named(
                n,
            ) ==> rust_ident(n)),
    decreases ss.len(),
{
    if ss.len() > 0 {
        let p = ss.drop_last();
        assert forall|i: int| 0 <= i < p.len() implies stmt_wf(#[trigger] p[i]) by {
            assert(p[i] == ss[i]);
        }
        lemma_links_named(p);
        let lp = links(p);
        assert(stmt_wf(ss[ss.len() - 1]));
        assert forall|k: int| 0 <= k < links(ss).len() implies ((#[trigger] links(
            ss,
        )[k]).arrow matches ArrowModel::Named(n) ==> rust_ident(n)) by {
            if k < lp.len() {
                assert(links(ss)[k] == lp[k]);
            } else if let StmtModel::Chain { doc, first, pos, steps } = ss.last() {
                let m = k - lp.len();
                assert(links(ss)[k] == chain_links(doc, first, steps)[m]);
                assert(rust_ident(steps[m].to));
            }
        }
    }
}

pub proof fn lemma_max_len(ms: Seq<Seq<char>>)
    ensures
        forall|i: int| 0 <= i < ms.len() ==> (#[trigger] ms[i]).len() <= max_len(ms),
    decreases ms.len(),
{
    if ms.len() > 0 {
        lemma_max_len(ms.drop_last());
        assert forall|i: int| 0 <= i < ms.len() implies (#[trigger] ms[i]).len() <= max_len(ms) by {
            if i < ms.len() - 1 {
                assert(ms.drop_last()[i] == ms[i]);
            }
        }
    }
}

/// The accessor names of a handle differ from each other and from every
/// method name of that handle.
pub proof fn law_accessors_distinct(ms: Seq<Seq<char>>)
    ensures
        accessor_names(ms).0 != accessor_names(ms).1,
        !ms.contains(accessor_names(ms).0),
        !ms.contains(accessor_names(ms).1),
{
    lemma_max_len(ms);
    reveal_strlit("get");
    reveal_strlit("get_mut");
    let (r, w) = accessor_names(ms);
    assert(r.len() != w.len());
    if ms.contains("get"@) || ms.contains("get_mut"@) {
        let k = max_len(ms);
        assert(r.len() == 3 + k);
        assert(w.len() == 7 + k);
        if ms.contains(r) {
            let i = choose|i: int| 0 <= i < ms.len() && ms[i] == r;
            assert(ms[i].len() <= k);
        }
        if ms.contains(w) {
            let i = choose|i: int| 0 <= i < ms.len() && ms[i] == w;
            assert(ms[i].len() <= k);
        }
    }
}

/// In a checked graph built from well-formed statements, every method name
/// is a Rust identifier (names that are keywords once in snake case come out
/// as raw identifiers), no two methods of one handle share a name, and no
/// accessor of a handle shares a name with its methods.
pub proof fn law_names_do_not_collide(
    ss: Seq<StmtModel>,
    rename: bool,
    at: usize,
    ns: Seq<NodeModel>,
    es: Seq<EdgeModel>,
)
    requires
        build_spec(ss, rename, at) == Ok::<(Seq<NodeModel>, Seq<EdgeModel>), Error>((ns, es)),
        forall|i: int| 0 <= i < ss.len() ==> stmt_wf(#[trigger] ss[i]),
    ensures
        forall|e: int| 0 <= e < es.len() ==> rust_ident((#[trigger] es[e]).method),
        forall|e1: int, e2: int|
            0 <= e1 < es.len() && 0 <= e2 < es.len() && e1 != e2 && (#[trigger] es[e1]).from
                == (#[trigger] es[e2]).from ==> es[e1].method != es[e2].method,
        forall|i: int|
            0 <= i < ns.len() ==> ((#[trigger] plan_spec(ns, es)[i]).accessors matches Some((r, w))
                ==> {
                &&& r != w
                &&& !method_names(plan_spec(ns, es)[i].methods).contains(r)
                &&& !method_names(plan_spec(ns, es)[i].methods).contains(w)
            }),
{
    lemma_checked_graph(ss, rename, at, ns, es);
    let ls = links(ss);
    lemma_links_named(ss);
    assert forall|e: int| 0 <= e < es.len() implies rust_ident((#[trigger] es[e]).method) by {
        let k = choose|k: int|
            0 <= k < ls.len() && ls[k].from == es[e].from && ls[k].to == es[e].to && link_method(
                ls[k],
                rename,
            ) == Some(es[e].method);
        let l = ls[k];
        if !(l.arrow is Named) {
            let base = if rename {
                crate::names::snake_text(l.to)
            } else {
                l.to
            };
            assert(derived_method(l.to, rename) == crate::names::escaped(base));
        }
    }
    assert forall|i: int| 0 <= i < ns.len() implies ((#[trigger] plan_spec(ns, es)[i]).accessors matches Some(
        (r, w),
    ) ==> {
        &&& r != w
        &&& !method_names(plan_spec(ns, es)[i].methods).contains(r)
        &&& !method_names(plan_spec(ns, es)[i].methods).contains(w)
    }) by {
        law_accessors_distinct(method_names(plan_spec(ns, es)[i].methods));
    }
}

/// The characters of a word are identifier characters.
pub proof fn lemma_word_end(s: Seq<char>, i: int)
    requires
        0 <= i <= s.len(),
    ensures
        i <= word_end(s, i) <= s.len(),
        forall|j: int| i <= j < word_end(s, i) ==> crate::text::is_word_char(#[trigger] s[j]),
    decreases s.len() - i,
{
    if i < s.len() && crate::text::is_word_char(s[i]) {
        lemma_word_end(s, i + 1);
    }
}

/// A name that was read is an identifier made of identifier characters.
pub proof fn lemma_name_at(s: Seq<char>, i: int)
    requires
        0 <= i <= s.len(),
    ensures
        name_at(s, i) matches Ok((w, _)) ==> rust_ident(w) && crate::text::is_word(w),
{
    let p = trivia_end(s, i);
    if let Some((w, q)) = word_at(s, p) {
        lemma_word_end(s, p + 1);
        assert forall|j: int| 0 < j < w.len() implies crate::text::is_word_char(#[trigger] w[j]) by {
            assert(w[j] == s[p + j]);
        }
    }
}

/// Arrows that were read name identifiers.
pub proof fn lemma_arrow_at(s: Seq<char>, i: int)
    ensures
        arrow_at(s, i) matches Ok(Some((ArrowModel::Named(n), _))) ==> rust_ident(n),
{
}

/// The steps of a chain that was read: at least one where it is the first
/// part of the chain, each leading to an identifier, each named arrow naming one.
pub proof fn lemma_steps_from(s: Seq<char>, cur: int, first: bool)
    requires
        0 <= cur <= s.len(),
    ensures
        steps_from(s, cur, first) matches Ok((steps, _)) ==> (first ==> steps.len() > 0) && forall|
            k: int,
        |
            0 <= k < steps.len() ==> rust_ident((#[trigger] steps[k]).to) && crate::text::is_word(
                steps[k].to,
            ) && (steps[k].arrow matches ArrowModel::Named(n) ==> rust_ident(n)),
    decreases s.len() - cur,
{
    let (doc, d) = crate::syntax::docs_from(s, cur);
    if let Ok(Some((arrow, p))) = arrow_at(s, d) {
        if 0 <= p <= s.len() {
            lemma_name_at(s, p);
        }
        if let Ok((to, b)) = name_at(s, p) {
            if cur < b <= s.len() {
                lemma_steps_from(s, b, false);
                lemma_arrow_at(s, d);
                if let Ok((rest, e)) = steps_from(s, b, false) {
                    let head = StepModel { doc, arrow, to, pos: trivia_end(s, d) as usize };
                    let all = seq![head] + rest;
                    assert forall|k: int| 0 <= k < all.len() implies rust_ident(
                        (#[trigger] all[k]).to,
                    ) && crate::text::is_word(all[k].to) && (all[k].arrow matches ArrowModel::Named(
                        n,
                    ) ==> rust_ident(n)) by {
                        if k > 0 {
                            assert(all[k] == rest[k - 1]);
                        }
                    }
                }
            }
        }
    }
}

/// Every statement that was read is well formed.
pub proof fn lemma_stmt_at(s: Seq<char>, i: int)
    requires
        0 <= i <= s.len(),
    ensures
        stmt_at(s, i) matches Ok((st, _)) ==> stmt_wf(st),
{
    let (doc, p) = crate::syntax::docs_from(s, i);
    let start = trivia_end(s, p);
    if 0 <= start <= s.len() {
        lemma_name_at(s, start);
        if let Ok((name, q0)) = name_at(s, start) {
            let q = trivia_end(s, q0);
            if 0 <= q <= s.len() {
                lemma_steps_from(s, q, true);
            }
        }
    }
}

/// Every statement of a statement list that was read is well formed.
pub proof fn lemma_stmts_from(s: Seq<char>, cur: int)
    requires
        0 <= cur <= s.len(),
    ensures
        stmts_from(s, cur) matches Ok(ss) ==> forall|i: int| 0 <= i < ss.len() ==> stmt_wf(#[trigger] ss[i]),
    decreases s.len() - cur,
{
    lemma_stmt_at(s, cur);
    if let Ok((st, e)) = stmt_at(s, cur) {
        if cur < e <= s.len() {
            lemma_stmts_from(s, e);
            if let Ok(rest) = stmts_from(s, e) {
                let all = seq![st] + rest;
                assert forall|i: int| 0 <= i < all.len() implies stmt_wf(#[trigger] all[i]) by {
                    if i > 0 {
                        assert(all[i] == rest[i - 1]);
                    }
                }
            }
        }
    }
}

/// Every statement of a machine that was read is well formed.
pub proof fn lemma_machine_at(s: Seq<char>)
    ensures
        machine_at(s) matches Ok(mm) ==> forall|i: int|
            0 <= i < mm.stmts.len() ==> stmt_wf(#[trigger] mm.stmts[i]),
{
    let (doc, p) = crate::syntax::docs_from(s, 0);
    if let Ok((options, attrs, p2)) = crate::syntax::attrs_from(
        s,
        p,
        crate::syntax::default_options(),
        Seq::empty(),
        Seq::empty(),
    ) {
        if let Ok((vis, v)) = crate::syntax::vis_at(s, p2) {
            if let Ok((name, n)) = name_at(s, crate::syntax::skip_enum(s, v)) {
                if let Ok((generics, g)) = crate::syntax::generics_at(s, n) {
                    if let Ok((wc, w)) = crate::syntax::where_at(s, g) {
                        if let Ok(b) = crate::syntax::expect_at(s, w, '{') {
                            if 0 <= b <= s.len() {
                                lemma_stmts_from(s, b);
                            }
                        }
                    }
                }
            }
        }
    }
}

/// For every text that describes a checked graph: every method name is a
/// Rust identifier (names that are keywords once in snake case come out as
/// raw identifiers), no two methods of one handle share a name, and no
/// accessor of a handle shares a name with its methods.
pub proof fn law_text_names_do_not_collide(t: Seq<char>, ns: Seq<NodeModel>, es: Seq<EdgeModel>)
    requires
        graph_of_text(t) == Ok::<(Seq<NodeModel>, Seq<EdgeModel>), Error>((ns, es)),
    ensures
        forall|e: int| 0 <= e < es.len() ==> rust_ident((#[trigger] es[e]).method),
        forall|e1: int, e2: int|
            0 <= e1 < es.len() && 0 <= e2 < es.len() && e1 != e2 && (#[trigger] es[e1]).from
                == (#[trigger] es[e2]).from ==> es[e1].method != es[e2].method,
        forall|i: int|
            0 <= i < ns.len() ==> ((#[trigger] plan_spec(ns, es)[i]).accessors matches Some((r, w))
                ==> {
                &&& r != w
                &&& !method_names(plan_spec(ns, es)[i].methods).contains(r)
                &&& !method_names(plan_spec(ns, es)[i].methods).contains(w)
            }),
{
    lemma_machine_at(t);
    let mm = machine_at(t)->Ok_0;
    law_names_do_not_collide(mm.stmts, mm.options.rename_methods, mm.name_pos as usize, ns, es);
}

/// A checked graph keeps the invariants of the data model: node names are
/// unique, every edge's ends are nodes, there is at least one edge, no
/// directed pair has two edges, and no two edges from one node share a
/// method name.
pub proof fn law_graph_invariants(
    ss: Seq<StmtModel>,
    rename: bool,
    at: usize,
    ns: Seq<NodeModel>,
    es: Seq<EdgeModel>,
)
    requires
        build_spec(ss, rename, at) == Ok::<(Seq<NodeModel>, Seq<EdgeModel>), Error>((ns, es)),
    ensures
        names_unique(ns),
        es.len() > 0,
        forall|e: int|
            0 <= e < es.len() ==> 0 <= find_node(ns, (#[trigger] es[e]).from) < ns.len() && 0
                <= find_node(ns, es[e].to) < ns.len(),
        forall|e1: int, e2: int|
            0 <= e1 < es.len() && 0 <= e2 < es.len() && e1 != e2 && (#[trigger] es[e1]).from
                == (#[trigger] es[e2]).from ==> es[e1].to != es[e2].to && es[e1].method
                != es[e2].method,
{
    lemma_checked_graph(ss, rename, at, ns, es);
}

/// The data part of a node's entry variant, as the table of shapes gives it:
/// nothing for a node without transitions or payload, a borrowed payload for
/// one without transitions, a handle for one with transitions.
pub open spec fn variant_data_text(c: crate::render::CtxModel, n: NodeModel, k: crate::topology::Kind) -> Seq<char> {
    match k {
        crate::topology::Kind::Isolate | crate::topology::Kind::Sink => match n.ty {
            None => Seq::empty(),
            Some(t) => "(&'state mut "@ + t + ")"@,
        },
        _ => "("@ + n.name + c.entry_args + ")"@,
    }
}

/// In the generated text, the entry type lists one variant per node of a
/// checked graph, in the order of the nodes, and the variant of each node is
/// its name followed by the data that its role and payload decide.
pub proof fn law_entry_variants_in_text(
    ns: Seq<NodeModel>,
    es: Seq<EdgeModel>,
    c: crate::render::CtxModel,
    d: Option<Seq<char>>,
    i: int,
)
    requires
        crate::laws::graph_wf(ns, es),
        0 <= i < ns.len(),
    ensures
        crate::render::entry_enum(c, es, plan_spec(ns, es), d) == crate::render::doc_attr(
            crate::render::progress_line(c),
        ) + match d {
            Some(x) => crate::render::doc_attr(Seq::empty()) + crate::render::doc_attr(x),
            None => Seq::empty(),
        } + c.entry_vis + " enum "@ + c.entry + c.entry_params + c.where_clause + " {\n"@
            + crate::render::concat(
            ns.map_values(|n: NodeModel| crate::render::entry_variant(c, es, variant_model(ns, es, n))),
        ) + "}\n"@,
        crate::render::entry_variant(c, es, plan_spec(ns, es)[i]) == crate::render::doc_attrs(
            crate::render::entry_doc_lines(c, es, plan_spec(ns, es)[i]),
        ) + ns[i].name + variant_data_text(c, ns[i], kind_of(es, ns[i].name)) + ",\n"@,
{
    law_completeness(ns, es);
    assert(plan_spec(ns, es).map_values(|v: VariantModel| crate::render::entry_variant(c, es, v))
        =~= ns.map_values(|n: NodeModel| crate::render::entry_variant(c, es, variant_model(ns, es, n))));
}

/// In the generated text, the method of every edge `(A, B)` on the handle of
/// `A` is declared with the edge's method name, takes the payload of `B`
/// exactly where `B` has one, and returns the payload of `A` exactly where
/// `A` has one.
pub proof fn law_transition_in_text(
    ns: Seq<NodeModel>,
    es: Seq<EdgeModel>,
    e: int,
)
    requires
        crate::laws::graph_wf(ns, es),
        0 <= e < es.len(),
    ensures
        ({
            let a = find_node(ns, es[e].from);
            let v = plan_spec(ns, es)[a];
            exists|k: int|
                0 <= k < v.methods.len() && (#[trigger] v.methods[k]).edge == e
                    && crate::render::method_head(ns, v, v.methods[k]) == "    pub fn "@
                    + es[e].method + if node_has_ty(ns, es[e].to) {
                    "(self, next: "@ + crate::render::ty_of(ns, es[e].to) + ")"@
                } else {
                    "(self)"@
                } + if ns[a].ty is Some {
                    " -> "@ + crate::render::ty_text(ns[a].ty)
                } else {
                    Seq::empty()
                }
        }),
{
    law_transition_coverage(ns, es, e);
    let a = find_node(ns, es[e].from);
    let v = plan_spec(ns, es)[a];
    let k = choose|k: int|
        0 <= k < v.methods.len() && (#[trigger] v.methods[k]).name == es[e].method
            && v.methods[k].edge == e && v.methods[k].to == es[e].to && v.methods[k].sig
            == signature_of(ns[a].ty is Some, node_has_ty(ns, es[e].to));
    assert(v.ty == ns[a].ty);
}

/// The nodes of a checked graph come in strictly ascending order of their
/// names, and its edges in strictly ascending order of (source, destination).
pub proof fn law_sorted(ss: Seq<StmtModel>, rename: bool, at: usize, ns: Seq<NodeModel>, es: Seq<EdgeModel>)
    requires
        build_spec(ss, rename, at) == Ok::<(Seq<NodeModel>, Seq<EdgeModel>), Error>((ns, es)),
    ensures
        forall|i: int, j: int|
            0 <= i < j < ns.len() ==> crate::text::lex_lt((#[trigger] ns[i]).name, (#[trigger] ns[j]).name),
        forall|i: int, j: int|
            0 <= i < j < es.len() ==> crate::text::lex_lt((#[trigger] es[i]).from, (#[trigger] es[j]).from)
                || (es[i].from == es[j].from && crate::text::lex_lt(es[i].to, es[j].to)),
{
    lemma_checked_graph(ss, rename, at, ns, es);
    let ns0 = fold_nodes(decls(ss))->Ok_0;
    let es0 = fold_edges(links(ss), rename)->Ok_0;
    assert(ns == sort_by(ns0, node_lt()) && es == sort_by(es0, edge_lt()));
    crate::graph::lemma_node_order();
    crate::graph::lemma_edge_order();
    crate::graph::lemma_sort_sorted(ns0, node_lt());
    crate::graph::lemma_sort_sorted(es0, edge_lt());
    assert forall|i: int, j: int| 0 <= i < j < ns.len() implies crate::text::lex_lt(
        (#[trigger] ns[i]).name,
        (#[trigger] ns[j]).name,
    ) by {
        assert(!(node_lt())(ns[j], ns[i]));
        crate::text::lemma_lex_total(ns[i].name, ns[j].name);
    }
    assert forall|i: int, j: int| 0 <= i < j < es.len() implies crate::text::lex_lt(
        (#[trigger] es[i]).from,
        (#[trigger] es[j]).from,
    ) || (es[i].from == es[j].from && crate::text::lex_lt(es[i].to, es[j].to)) by {
        assert(!(edge_lt())(es[j], es[i]));
        crate::text::lemma_lex_total(es[i].from, es[j].from);
        crate::text::lemma_lex_total(es[i].to, es[j].to);
    }
}

/// A valid graph: node names are unique and ascending, edges are ascending
/// by (source, destination), there is at least one edge, both ends of every
/// edge are nodes, and no two edges from one node share a destination or a
/// method name.
pub open spec fn graph_wf(ns: Seq<NodeModel>, es: Seq<EdgeModel>) -> bool {
    &&& names_unique(ns)
    &&& es.len() > 0
    &&& forall|i: int, j: int|
        0 <= i < j < ns.len() ==> crate::text::lex_lt((#[trigger] ns[i]).name, (#[trigger] ns[j]).name)
    &&& forall|i: int, j: int|
        0 <= i < j < es.len() ==> crate::text::lex_lt((#[trigger] es[i]).from, (#[trigger] es[j]).from)
            || (es[i].from == es[j].from && crate::text::lex_lt(es[i].to, es[j].to))
    &&& forall|e: int|
        0 <= e < es.len() ==> 0 <= find_node(ns, (#[trigger] es[e]).from) < ns.len() && ns[find_node(
            ns,
            es[e].from,
        )].name == es[e].from && 0 <= find_node(ns, es[e].to) < ns.len() && ns[find_node(
            ns,
            es[e].to,
        )].name == es[e].to
    &&& forall|e1: int, e2: int|
        0 <= e1 < es.len() && 0 <= e2 < es.len() && e1 != e2 && (#[trigger] es[e1]).from
            == (#[trigger] es[e2]).from ==> es[e1].method != es[e2].method && es[e1].to != es[e2].to
}

/// Every graph that `build_spec` gives is valid.
pub proof fn lemma_build_wf(ss: Seq<StmtModel>, rename: bool, at: usize, ns: Seq<NodeModel>, es: Seq<EdgeModel>)
    requires
        build_spec(ss, rename, at) == Ok::<(Seq<NodeModel>, Seq<EdgeModel>), Error>((ns, es)),
    ensures
        graph_wf(ns, es),
{
    lemma_checked_graph(ss, rename, at, ns, es);
    law_sorted(ss, rename, at, ns, es);
}

/// The variant that the entry type holds for node `i`: its name followed by
/// the data that its role and payload decide.
pub open spec fn variant_in_text(
    c: crate::render::CtxModel,
    ns: Seq<NodeModel>,
    es: Seq<EdgeModel>,
    i: int,
) -> bool {
    crate::render::entry_variant(c, es, plan_spec(ns, es)[i]) == crate::render::doc_attrs(
        crate::render::entry_doc_lines(c, es, plan_spec(ns, es)[i]),
    ) + ns[i].name + variant_data_text(c, ns[i], kind_of(es, ns[i].name)) + ",\n"@
}

/// The method of edge `e` on the handle of its source: declared with the
/// edge's method name, taking the destination's payload exactly where it has
/// one, returning the source's payload exactly where it has one.
pub open spec fn transition_in_text(ns: Seq<NodeModel>, es: Seq<EdgeModel>, e: int) -> bool {
    let a = find_node(ns, es[e].from);
    let v = plan_spec(ns, es)[a];
    exists|k: int|
        0 <= k < v.methods.len() && (#[trigger] v.methods[k]).edge == e
            && crate::render::method_head(ns, v, v.methods[k]) == "    pub fn "@ + es[e].method
            + if node_has_ty(ns, es[e].to) {
            "(self, next: "@ + crate::render::ty_of(ns, es[e].to) + ")"@
        } else {
            "(self)"@
        } + if ns[a].ty is Some {
            " -> "@ + crate::render::ty_text(ns[a].ty)
        } else {
            Seq::empty()
        }
}

/// What the generated text of a valid graph holds: one entry variant per
/// node, in node order, each of the shape its role and payload decide, and
/// one method per edge with the signature its payloads decide.
pub open spec fn text_laws(
    c: crate::render::CtxModel,
    ns: Seq<NodeModel>,
    es: Seq<EdgeModel>,
    d: Option<Seq<char>>,
) -> bool {
    &&& plan_spec(ns, es).len() == ns.len()
    &&& crate::render::entry_enum(c, es, plan_spec(ns, es), d) == crate::render::doc_attr(
        crate::render::progress_line(c),
    ) + match d {
        Some(x) => crate::render::doc_attr(Seq::empty()) + crate::render::doc_attr(x),
        None => Seq::empty(),
    } + c.entry_vis + " enum "@ + c.entry + c.entry_params + c.where_clause + " {\n"@
        + crate::render::concat(
        ns.map_values(|n: NodeModel| crate::render::entry_variant(c, es, variant_model(ns, es, n))),
    ) + "}\n"@
    &&& forall|i: int| 0 <= i < ns.len() ==> #[trigger] variant_in_text(c, ns, es, i)
    &&& forall|e: int| 0 <= e < es.len() ==> #[trigger] transition_in_text(ns, es, e)
}

/// The generated text of every valid graph keeps `text_laws`.
pub proof fn law_generated_text(
    c: crate::render::CtxModel,
    ns: Seq<NodeModel>,
    es: Seq<EdgeModel>,
    d: Option<Seq<char>>,
)
    requires
        graph_wf(ns, es),
    ensures
        text_laws(c, ns, es, d),
{
    law_completeness(ns, es);
    if ns.len() > 0 {
        law_entry_variants_in_text(ns, es, c, d, 0);
    } else {
        assert(plan_spec(ns, es).map_values(|v: VariantModel| crate::render::entry_variant(c, es, v))
            =~= ns.map_values(|n: NodeModel| crate::render::entry_variant(c, es, variant_model(ns, es, n))));
    }
    assert forall|i: int| 0 <= i < ns.len() implies #[trigger] variant_in_text(c, ns, es, i) by {
        law_entry_variants_in_text(ns, es, c, d, i);
    }
    assert forall|e: int| 0 <= e < es.len() implies #[trigger] transition_in_text(ns, es, e) by {
        law_transition_in_text(ns, es, e);
    }
}

} // verus!
