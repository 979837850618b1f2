//! The graph of a machine: nodes with optional payload types, and directed
//! edges that carry a method name. Built from statements, checked as it is built.
use vstd::prelude::*;
use crate::error::{Error, ErrorKind};
use crate::names::derived_method;
use crate::syntax::{stmt_models, Arrow, StepModel, Stmt, StmtModel};
use crate::names::method_name_for;
use crate::text::{copy_chars, less_chars, lex_lt, same_chars};

verus! {

pub struct NodeModel {
    pub name: Seq<char>,
    pub ty: Option<Seq<char>>,
    pub doc: Seq<Seq<char>>,
}

pub struct EdgeModel {
    pub from: Seq<char>,
    pub to: Seq<char>,
    pub method: Seq<char>,
    pub doc: Seq<Seq<char>>,
}

/// One mention of a node: a declaration, or a reference from a chain.
pub struct DeclModel {
    pub name: Seq<char>,
    pub ty: Option<Seq<char>>,
    pub doc: Seq<Seq<char>>,
    pub pos: usize,
}

pub enum ArrowModel {
    Plain,
    Named(Seq<char>),
    Documented(Seq<char>),
}

/// One consecutive pair of a chain, with the chain's documentation and the
/// arrow's own.
pub struct LinkModel {
    pub from: Seq<char>,
    pub to: Seq<char>,
    pub arrow: ArrowModel,
    pub doc: Seq<Seq<char>>,
    pub pos: usize,
}

pub open spec fn lines(v: Seq<Vec<char>>) -> Seq<Seq<char>> {
    v.map_values(|l: Vec<char>| l@)
}

pub open spec fn opt(o: Option<Vec<char>>) -> Option<Seq<char>> {
    match o {
        Some(t) => Some(t@),
        None => None,
    }
}

pub open spec fn arrow_model(a: Arrow) -> ArrowModel {
    match a {
        Arrow::Plain => ArrowModel::Plain,
        Arrow::Named(n) => ArrowModel::Named(n@),
        Arrow::Documented(t) => ArrowModel::Documented(t@),
    }
}

/// Documentation from two places, separated by an empty line where both have some.
pub open spec fn join_docs(a: Seq<Seq<char>>, b: Seq<Seq<char>>) -> Seq<Seq<char>> {
    if a.len() == 0 {
        b
    } else if b.len() == 0 {
        a
    } else {
        a + seq![Seq::<char>::empty()] + b
    }
}

/// The node declarations of the statements, in order.
pub open spec fn node_decls(ss: Seq<StmtModel>) -> Seq<DeclModel>
    decreases ss.len(),
{
    if ss.len() == 0 {
        Seq::empty()
    } else {
        node_decls(ss.drop_last()) + match ss.last() {
            StmtModel::Node { doc, name, ty, pos } => seq![DeclModel { name, ty, doc, pos }],
            StmtModel::Chain { .. } => Seq::empty(),
        }
    }
}

pub open spec fn ref_of(name: Seq<char>, pos: usize) -> DeclModel {
    DeclModel { name, ty: None, doc: Seq::empty(), pos }
}

/// Every node that a chain mentions, in order.
pub open spec fn chain_refs(first: Seq<char>, pos: usize, steps: Seq<StepModel>) -> Seq<DeclModel> {
    seq![ref_of(first, pos)] + steps.map_values(|st: StepModel| ref_of(st.to, st.pos))
}

pub open spec fn chain_decls(ss: Seq<StmtModel>) -> Seq<DeclModel>
    decreases ss.len(),
{
    if ss.len() == 0 {
        Seq::empty()
    } else {
        chain_decls(ss.drop_last()) + match ss.last() {
            StmtModel::Node { .. } => Seq::empty(),
            StmtModel::Chain { first, pos, steps, .. } => chain_refs(first, pos, steps),
        }
    }
}

/// All mentions of nodes: declarations first, then references from chains.
pub open spec fn decls(ss: Seq<StmtModel>) -> Seq<DeclModel> {
    node_decls(ss) + chain_decls(ss)
}

/// The consecutive pairs of a chain.
pub open spec fn chain_links(doc: Seq<Seq<char>>, first: Seq<char>, steps: Seq<StepModel>) -> Seq<
    LinkModel,
> {
    Seq::new(
        steps.len(),
        |k: int|
            LinkModel {
                from: if k == 0 {
                    first
                } else {
                    steps[k - 1].to
                },
                to: steps[k].to,
                arrow: steps[k].arrow,
                doc: join_docs(doc, steps[k].doc),
                pos: steps[k].pos,
            },
    )
}

pub open spec fn links(ss: Seq<StmtModel>) -> Seq<LinkModel>
    decreases ss.len(),
{
    if ss.len() == 0 {
        Seq::empty()
    } else {
        links(ss.drop_last()) + match ss.last() {
            StmtModel::Node { .. } => Seq::empty(),
            StmtModel::Chain { doc, first, steps, .. } => chain_links(doc, first, steps),
        }
    }
}

/// The index of the node called `name`, searching from `i`; -1 where none is.
pub open spec fn find_from(ns: Seq<NodeModel>, name: Seq<char>, i: int) -> int
    decreases ns.len() - i,
{
    if i < 0 || i >= ns.len() {
        -1
    } else if ns[i].name == name {
        i
    } else {
        find_from(ns, name, i + 1)
    }
}

pub open spec fn find_node(ns: Seq<NodeModel>, name: Seq<char>) -> int {
    find_from(ns, name, 0)
}

/// Add one mention of a node: a new node, or merged into the node of that
/// name. Payload types must agree where both are given.
pub open spec fn merge(ns: Seq<NodeModel>, d: DeclModel) -> Result<Seq<NodeModel>, Error> {
    let j = find_node(ns, d.name);
    if j < 0 {
        Ok(ns.push(NodeModel { name: d.name, ty: d.ty, doc: d.doc }))
    } else {
        let n = ns[j];
        if n.ty is Some && d.ty is Some && n.ty != d.ty {
            Err(Error { kind: ErrorKind::IncompatibleRedefinition, pos: d.pos })
        } else {
            Ok(
                ns.update(
                    j,
                    NodeModel {
                        name: n.name,
                        ty: if n.ty is Some {
                            n.ty
                        } else {
                            d.ty
                        },
                        doc: join_docs(n.doc, d.doc),
                    },
                ),
            )
        }
    }
}

pub open spec fn fold_nodes(ds: Seq<DeclModel>) -> Result<Seq<NodeModel>, Error>
    decreases ds.len(),
{
    if ds.len() == 0 {
        Ok(Seq::empty())
    } else {
        match fold_nodes(ds.drop_last()) {
            Err(e) => Err(e),
            Ok(ns) => merge(ns, ds.last()),
        }
    }
}

pub open spec fn has_pair(es: Seq<EdgeModel>, from: Seq<char>, to: Seq<char>) -> bool {
    exists|i: int| 0 <= i < es.len() && (#[trigger] es[i]).from == from && es[i].to == to
}

pub open spec fn has_method(es: Seq<EdgeModel>, from: Seq<char>, method: Seq<char>) -> bool {
    exists|i: int| 0 <= i < es.len() && (#[trigger] es[i]).from == from && es[i].method == method
}

/// The method name of a link: its own name, or one derived from its destination.
pub open spec fn link_method(l: LinkModel, rename: bool) -> Option<Seq<char>> {
    match l.arrow {
        ArrowModel::Named(n) => Some(n),
        _ => derived_method(l.to, rename),
    }
}

pub open spec fn link_doc(l: LinkModel) -> Seq<Seq<char>> {
    match l.arrow {
        ArrowModel::Documented(t) => join_docs(l.doc, seq![t]),
        _ => l.doc,
    }
}

/// Add the edge of one link.
pub open spec fn add_edge(es: Seq<EdgeModel>, l: LinkModel, rename: bool) -> Result<
    Seq<EdgeModel>,
    Error,
> {
    if has_pair(es, l.from, l.to) {
        Err(Error { kind: ErrorKind::DuplicateEdge, pos: l.pos })
    } else {
        match link_method(l, rename) {
            None => Err(Error { kind: ErrorKind::InvalidMethodName, pos: l.pos }),
            Some(m) => if has_method(es, l.from, m) {
                Err(Error { kind: ErrorKind::DuplicateMethod, pos: l.pos })
            } else {
                Ok(es.push(EdgeModel { from: l.from, to: l.to, method: m, doc: link_doc(l) }))
            },
        }
    }
}

pub open spec fn fold_edges(ls: Seq<LinkModel>, rename: bool) -> Result<Seq<EdgeModel>, Error>
    decreases ls.len(),
{
    if ls.len() == 0 {
        Ok(Seq::empty())
    } else {
        match fold_edges(ls.drop_last(), rename) {
            Err(e) => Err(e),
            Ok(es) => add_edge(es, ls.last(), rename),
        }
    }
}

/// Where `x` goes in `s`: after the leading elements that come before it.
pub open spec fn sorted_pos<T>(s: Seq<T>, x: T, lt: spec_fn(T, T) -> bool) -> int
    decreases s.len(),
{
    if s.len() == 0 {
        0
    } else if lt(s[0], x) {
        1 + sorted_pos(s.drop_first(), x, lt)
    } else {
        0
    }
}

/// Insertion sort by `lt`.
pub open spec fn sort_by<T>(s: Seq<T>, lt: spec_fn(T, T) -> bool) -> Seq<T>
    decreases s.len(),
{
    if s.len() == 0 {
        s
    } else {
        let r = sort_by(s.drop_last(), lt);
        r.insert(sorted_pos(r, s.last(), lt), s.last())
    }
}

/// Nodes in ascending order of their names.
pub open spec fn node_lt() -> spec_fn(NodeModel, NodeModel) -> bool {
    |a: NodeModel, b: NodeModel| lex_lt(a.name, b.name)
}

/// Edges in ascending order of (source, destination).
pub open spec fn edge_lt() -> spec_fn(EdgeModel, EdgeModel) -> bool {
    |a: EdgeModel, b: EdgeModel| lex_lt(a.from, b.from) || (a.from == b.from && lex_lt(a.to, b.to))
}

pub proof fn lemma_sorted_pos<T>(s: Seq<T>, x: T, lt: spec_fn(T, T) -> bool)
    ensures
        0 <= sorted_pos(s, x, lt) <= s.len(),
    decreases s.len(),
{
    if s.len() > 0 {
        lemma_sorted_pos(s.drop_first(), x, lt);
    }
}

/// Sorting keeps the elements: each element of the result is one of the
/// input, and each element of the input is in the result.
pub proof fn lemma_sort_by<T>(s: Seq<T>, lt: spec_fn(T, T) -> bool)
    ensures
        sort_by(s, lt).len() == s.len(),
        forall|i: int|
            0 <= i < s.len() ==> exists|j: int| 0 <= j < s.len() && #[trigger] sort_by(s, lt)[i] == s[j],
        forall|j: int|
            0 <= j < s.len() ==> exists|i: int| 0 <= i < s.len() && sort_by(s, lt)[i] == #[trigger] s[j],
    decreases s.len(),
{
    if s.len() > 0 {
        let p = s.drop_last();
        lemma_sort_by(p, lt);
        let r = sort_by(p, lt);
        let k = sorted_pos(r, s.last(), lt);
        lemma_sorted_pos(r, s.last(), lt);
        let res = sort_by(s, lt);
        assert(res == r.insert(k, s.last()));
        assert forall|i: int| 0 <= i < s.len() implies exists|j: int|
            0 <= j < s.len() && #[trigger] res[i] == s[j] by {
            if i < k {
                let j = choose|j: int| 0 <= j < p.len() && r[i] == p[j];
                assert(res[i] == s[j]);
            } else if i == k {
                assert(res[i] == s[s.len() - 1]);
            } else {
                let j = choose|j: int| 0 <= j < p.len() && r[i - 1] == p[j];
                assert(res[i] == s[j]);
            }
        }
        assert forall|j: int| 0 <= j < s.len() implies exists|i: int|
            0 <= i < s.len() && res[i] == #[trigger] s[j] by {
            if j < s.len() - 1 {
                assert(s[j] == p[j]);
                let i = choose|i: int| 0 <= i < p.len() && r[i] == p[j];
                if i < k {
                    assert(res[i] == s[j]);
                } else {
                    assert(res[i + 1] == s[j]);
                }
            } else {
                assert(res[k] == s[j]);
            }
        }
    }
}

/// No two elements at different places conflict.
pub open spec fn no_conflict<T>(s: Seq<T>, conflict: spec_fn(T, T) -> bool) -> bool {
    forall|i: int, j: int|
        0 <= i < s.len() && 0 <= j < s.len() && i != j ==> !conflict(#[trigger] s[i], #[trigger] s[j])
}

pub proof fn lemma_insert_no_conflict<T>(r: Seq<T>, k: int, x: T, conflict: spec_fn(T, T) -> bool)
    requires
        0 <= k <= r.len(),
        no_conflict(r, conflict),
        forall|i: int| 0 <= i < r.len() ==> !conflict(#[trigger] r[i], x) && !conflict(x, r[i]),
    ensures
        no_conflict(r.insert(k, x), conflict),
{
    let res = r.insert(k, x);
    assert forall|i: int, j: int|
        0 <= i < res.len() && 0 <= j < res.len() && i != j implies !conflict(
            #[trigger] res[i],
            #[trigger] res[j],
        ) by {
        if i == k {
            let rj = if j < k { j } else { j - 1 };
            assert(res[j] == r[rj]);
        } else if j == k {
            let ri = if i < k { i } else { i - 1 };
            assert(res[i] == r[ri]);
        } else {
            let ri = if i < k { i } else { i - 1 };
            let rj = if j < k { j } else { j - 1 };
            assert(res[i] == r[ri] && res[j] == r[rj]);
        }
    }
}

/// Sorting keeps a list free of conflicting pairs.
pub proof fn lemma_sort_no_conflict<T>(
    s: Seq<T>,
    lt: spec_fn(T, T) -> bool,
    conflict: spec_fn(T, T) -> bool,
)
    requires
        no_conflict(s, conflict),
    ensures
        no_conflict(sort_by(s, lt), conflict),
    decreases s.len(),
{
    if s.len() > 0 {
        let p = s.drop_last();
        assert(no_conflict(p, conflict)) by {
            assert forall|i: int, j: int|
                0 <= i < p.len() && 0 <= j < p.len() && i != j implies !conflict(
                    #[trigger] p[i],
                    #[trigger] p[j],
                ) by {
                assert(p[i] == s[i] && p[j] == s[j]);
            }
        }
        lemma_sort_no_conflict(p, lt, conflict);
        lemma_sort_by(p, lt);
        let r = sort_by(p, lt);
        let x = s.last();
        let k = sorted_pos(r, x, lt);
        lemma_sorted_pos(r, x, lt);
        assert forall|i: int| 0 <= i < r.len() implies !conflict(#[trigger] r[i], x) && !conflict(
            x,
            r[i],
        ) by {
            let j = choose|j: int| 0 <= j < p.len() && r[i] == p[j];
            assert(p[j] == s[j]);
            assert(!conflict(s[j], s[s.len() - 1]));
            assert(!conflict(s[s.len() - 1], s[j]));
        }
        lemma_insert_no_conflict(r, k, x, conflict);
    }
}

/// No later element comes strictly before an earlier one.
pub open spec fn sorted_by<T>(s: Seq<T>, lt: spec_fn(T, T) -> bool) -> bool {
    forall|i: int, j: int| 0 <= i < j < s.len() ==> !lt(#[trigger] s[j], #[trigger] s[i])
}

/// `lt` is asymmetric and negatively transitive: a strict weak order.
pub open spec fn weak_order<T>(lt: spec_fn(T, T) -> bool) -> bool {
    &&& forall|a: T, b: T| #[trigger] lt(a, b) ==> !lt(b, a)
    &&& forall|a: T, b: T, c: T| #[trigger] lt(a, c) ==> lt(a, b) || #[trigger] lt(b, c)
}

pub proof fn lemma_sorted_pos_split<T>(s: Seq<T>, x: T, lt: spec_fn(T, T) -> bool)
    ensures
        forall|i: int| 0 <= i < sorted_pos(s, x, lt) ==> lt(#[trigger] s[i], x),
        0 <= sorted_pos(s, x, lt) < s.len() ==> !lt(s[sorted_pos(s, x, lt)], x),
    decreases s.len(),
{
    lemma_sorted_pos(s, x, lt);
    if s.len() > 0 && lt(s[0], x) {
        lemma_sorted_pos_split(s.drop_first(), x, lt);
        assert forall|i: int| 0 <= i < sorted_pos(s, x, lt) implies lt(#[trigger] s[i], x) by {
            if i > 0 {
                assert(s[i] == s.drop_first()[i - 1]);
            }
        }
        let k = sorted_pos(s, x, lt);
        lemma_sorted_pos(s.drop_first(), x, lt);
        assert(k == 1 + sorted_pos(s.drop_first(), x, lt));
        if k < s.len() {
            assert(s[k] == s.drop_first()[k - 1]);
        }
    }
}

/// Insertion sort by a strict weak order gives a sorted list.
pub proof fn lemma_sort_sorted<T>(s: Seq<T>, lt: spec_fn(T, T) -> bool)
    requires
        weak_order(lt),
    ensures
        sorted_by(sort_by(s, lt), lt),
    decreases s.len(),
{
    if s.len() > 0 {
        let p = s.drop_last();
        lemma_sort_sorted(p, lt);
        let r = sort_by(p, lt);
        let x = s.last();
        let k = sorted_pos(r, x, lt);
        lemma_sorted_pos(r, x, lt);
        lemma_sorted_pos_split(r, x, lt);
        let res = r.insert(k, x);
        assert(sort_by(s, lt) == res);
        assert forall|i: int, j: int| 0 <= i < j < res.len() implies !lt(
            #[trigger] res[j],
            #[trigger] res[i],
        ) by {
            if j < k {
                assert(res[i] == r[i] && res[j] == r[j]);
            } else if j == k {
                assert(res[i] == r[i] && res[j] == x);
                assert(lt(r[i], x));
            } else if i < k {
                assert(res[i] == r[i] && res[j] == r[j - 1]);
            } else if i == k {
                assert(res[i] == x && res[j] == r[j - 1]);
                if lt(r[j - 1], x) {
                    assert(lt(r[j - 1], r[k]) || lt(r[k], x));
                    if j - 1 > k {
                        assert(!lt(r[j - 1], r[k]));
                    }
                }
            } else {
                assert(res[i] == r[i - 1] && res[j] == r[j - 1]);
            }
        }
    }
}

pub proof fn lemma_node_order()
    ensures
        weak_order(node_lt()),
{
    assert forall|a: NodeModel, b: NodeModel| #[trigger] (node_lt())(a, b) implies !(node_lt())(b, a) by {
        crate::text::lemma_lex_asym(a.name, b.name);
    }
    assert forall|a: NodeModel, b: NodeModel, c: NodeModel| #[trigger] (node_lt())(a, c) implies (node_lt())(
        a,
        b,
    ) || #[trigger] (node_lt())(b, c) by {
        crate::text::lemma_lex_total(a.name, b.name);
        crate::text::lemma_lex_total(b.name, c.name);
        crate::text::lemma_lex_trans(b.name, a.name, c.name);
        crate::text::lemma_lex_trans(a.name, c.name, b.name);
        crate::text::lemma_lex_asym(a.name, c.name);
        crate::text::lemma_lex_trans(c.name, b.name, a.name);
    }
}

pub proof fn lemma_edge_order()
    ensures
        weak_order(edge_lt()),
{
    assert forall|a: EdgeModel, b: EdgeModel| #[trigger] (edge_lt())(a, b) implies !(edge_lt())(b, a) by {
        crate::text::lemma_lex_asym(a.from, b.from);
        crate::text::lemma_lex_asym(a.to, b.to);
    }
    assert forall|a: EdgeModel, b: EdgeModel, c: EdgeModel| #[trigger] (edge_lt())(a, c) implies (edge_lt())(
        a,
        b,
    ) || #[trigger] (edge_lt())(b, c) by {
        crate::text::lemma_lex_total(a.from, b.from);
        crate::text::lemma_lex_total(b.from, c.from);
        crate::text::lemma_lex_total(a.to, b.to);
        crate::text::lemma_lex_total(b.to, c.to);
        crate::text::lemma_lex_trans(b.from, a.from, c.from);
        crate::text::lemma_lex_trans(a.from, c.from, b.from);
        crate::text::lemma_lex_trans(c.from, b.from, a.from);
        crate::text::lemma_lex_asym(a.from, c.from);
        crate::text::lemma_lex_trans(b.to, a.to, c.to);
        crate::text::lemma_lex_trans(a.to, c.to, b.to);
        crate::text::lemma_lex_trans(c.to, b.to, a.to);
        crate::text::lemma_lex_asym(a.to, c.to);
    }
}

/// The graph that statements describe, or the first failure: node mentions
/// are merged first, then edges are added, and at least one edge is required
/// (a failure reported at `at`). Nodes come out in ascending order of
/// their names, edges in ascending order of (source, destination).
pub open spec fn build_spec(ss: Seq<StmtModel>, rename: bool, at: usize) -> Result<
    (Seq<NodeModel>, Seq<EdgeModel>),
    Error,
> {
    match fold_nodes(decls(ss)) {
        Err(e) => Err(e),
        Ok(ns) => match fold_edges(links(ss), rename) {
            Err(e) => Err(e),
            Ok(es) => if es.len() == 0 {
                Err(Error { kind: ErrorKind::NoEdges, pos: at })
            } else {
                Ok((sort_by(ns, node_lt()), sort_by(es, edge_lt())))
            },
        },
    }
}

/// A node of the graph.
pub struct Node {
    pub name: Vec<char>,
    /// The payload type, as canonical tokens.
    pub ty: Option<Vec<char>>,
    pub doc: Vec<Vec<char>>,
}

/// A directed edge of the graph, which becomes one transition method.
pub struct Edge {
    pub from: Vec<char>,
    pub to: Vec<char>,
    pub method: Vec<char>,
    pub doc: Vec<Vec<char>>,
}

/// One mention of a node, as `DeclModel` describes it.
pub struct Decl {
    pub name: Vec<char>,
    pub ty: Option<Vec<char>>,
    pub doc: Vec<Vec<char>>,
    pub pos: usize,
}

/// One consecutive pair of a chain, as `LinkModel` describes it.
pub struct Link {
    pub from: Vec<char>,
    pub to: Vec<char>,
    pub arrow: Arrow,
    pub doc: Vec<Vec<char>>,
    pub pos: usize,
}

impl View for Node {
    type V = NodeModel;

    open spec fn view(&self) -> NodeModel {
        NodeModel { name: self.name@, ty: opt(self.ty), doc: lines(self.doc@) }
    }
}

impl View for Edge {
    type V = EdgeModel;

    open spec fn view(&self) -> EdgeModel {
        EdgeModel { from: self.from@, to: self.to@, method: self.method@, doc: lines(self.doc@) }
    }
}

impl View for Decl {
    type V = DeclModel;

    open spec fn view(&self) -> DeclModel {
        DeclModel { name: self.name@, ty: opt(self.ty), doc: lines(self.doc@), pos: self.pos }
    }
}

impl View for Link {
    type V = LinkModel;

    open spec fn view(&self) -> LinkModel {
        LinkModel {
            from: self.from@,
            to: self.to@,
            arrow: arrow_model(self.arrow),
            doc: lines(self.doc@),
            pos: self.pos,
        }
    }
}

pub open spec fn node_models(v: Seq<Node>) -> Seq<NodeModel> {
    v.map_values(|n: Node| n@)
}

pub open spec fn edge_models(v: Seq<Edge>) -> Seq<EdgeModel> {
    v.map_values(|e: Edge| e@)
}

pub open spec fn decl_models(v: Seq<Decl>) -> Seq<DeclModel> {
    v.map_values(|d: Decl| d@)
}

pub open spec fn link_models(v: Seq<Link>) -> Seq<LinkModel> {
    v.map_values(|l: Link| l@)
}

/// A copy of documentation lines.
pub fn copy_lines(v: &Vec<Vec<char>>) -> (r: Vec<Vec<char>>)
    ensures
        lines(r@) == lines(v@),
{
    let mut r: Vec<Vec<char>> = Vec::new();
    let mut i: usize = 0;
    while i < v.len()
        invariant
            i <= v@.len(),
            r@.len() == i,
            forall|j: int| 0 <= j < i ==> (#[trigger] r@[j])@ == v@[j]@,
        decreases v@.len() - i,
    {
        r.push(copy_chars(&v[i]));
        i = i + 1;
    }
    proof {
        assert(lines(r@) =~= lines(v@));
    }
    r
}

pub fn copy_opt(o: &Option<Vec<char>>) -> (r: Option<Vec<char>>)
    ensures
        opt(r) == opt(*o),
{
    match o {
        Some(t) => Some(copy_chars(t)),
        None => None,
    }
}

pub fn copy_arrow(a: &Arrow) -> (r: Arrow)
    ensures
        arrow_model(r) == arrow_model(*a),
{
    match a {
        Arrow::Plain => Arrow::Plain,
        Arrow::Named(n) => Arrow::Named(copy_chars(n)),
        Arrow::Documented(t) => Arrow::Documented(copy_chars(t)),
    }
}

/// Documentation from two places, separated by an empty line where both have some.
pub fn join_lines(a: &Vec<Vec<char>>, b: &Vec<Vec<char>>) -> (r: Vec<Vec<char>>)
    ensures
        lines(r@) == join_docs(lines(a@), lines(b@)),
{
    if a.len() == 0 {
        return copy_lines(b);
    }
    let mut r = copy_lines(a);
    if b.len() == 0 {
        return r;
    }
    let ghost mid = lines(r@);
    r.push(Vec::new());
    proof {
        assert(lines(r@) =~= mid + seq![Seq::<char>::empty()]);
    }
    let ghost first = lines(r@);
    let mut i: usize = 0;
    while i < b.len()
        invariant
            i <= b@.len(),
            r@.len() == first.len() + i,
            forall|j: int| 0 <= j < first.len() ==> (#[trigger] r@[j])@ == first[j],
            forall|j: int| 0 <= j < i ==> (#[trigger] r@[first.len() + j])@ == b@[j]@,
        decreases b@.len() - i,
    {
        r.push(copy_chars(&b[i]));
        i = i + 1;
    }
    proof {
        assert forall|j: int| first.len() <= j < r@.len() implies r@[j]@ == b@[j - first.len()]@ by {
            let k = j - first.len();
            assert(r@[first.len() + k]@ == b@[k]@);
        }
        assert(lines(r@) =~= first + lines(b@));
    }
    r
}

/// Every mention of a node in the statements, as `decls` lists them.
pub fn collect_decls(ss: &Vec<Stmt>) -> (r: Vec<Decl>)
    ensures
        decl_models(r@) == decls(stmt_models(ss@)),
{
    let ghost sm = stmt_models(ss@);
    let mut r: Vec<Decl> = Vec::new();
    let mut i: usize = 0;
    while i < ss.len()
        invariant
            i <= ss@.len(),
            sm == stmt_models(ss@),
            decl_models(r@) == node_decls(sm.subrange(0, i as int)),
        decreases ss@.len() - i,
    {
        match &ss[i] {
            Stmt::Node(n) => {
                r.push(
                    Decl {
                        name: copy_chars(&n.name),
                        ty: copy_opt(&n.ty),
                        doc: copy_lines(&n.doc),
                        pos: n.pos,
                    },
                );
            },
            Stmt::Chain(_) => {},
        }
        proof {
            assert(sm.subrange(0, i + 1).drop_last() =~= sm.subrange(0, i as int));
            assert(sm.subrange(0, i + 1).last() == sm[i as int]);
            assert(decl_models(r@) =~= node_decls(sm.subrange(0, i + 1)));
        }
        i = i + 1;
    }
    let ghost first = decl_models(r@);
    proof {
        assert(sm.subrange(0, ss@.len() as int) =~= sm);
    }
    let mut i: usize = 0;
    while i < ss.len()
        invariant
            i <= ss@.len(),
            sm == stmt_models(ss@),
            first == node_decls(sm),
            decl_models(r@) == first + chain_decls(sm.subrange(0, i as int)),
        decreases ss@.len() - i,
    {
        let ghost before = decl_models(r@);
        match &ss[i] {
            Stmt::Node(_) => {},
            Stmt::Chain(c) => {
                let ghost steps = crate::syntax::step_models(c.steps@);
                r.push(
                    Decl { name: copy_chars(&c.first), ty: None, doc: Vec::new(), pos: c.pos },
                );
                proof {
                    assert(lines(Seq::<Vec<char>>::empty()) =~= Seq::<Seq<char>>::empty());
                    assert(decl_models(r@) =~= before + seq![ref_of(c.first@, c.pos)]);
                }
                let ghost head = decl_models(r@);
                let mut k: usize = 0;
                while k < c.steps.len()
                    invariant
                        k <= c.steps@.len(),
                        steps == crate::syntax::step_models(c.steps@),
                        r@.len() == head.len() + k,
                        forall|j: int| 0 <= j < head.len() ==> (#[trigger] r@[j])@ == head[j],
                        forall|j: int|
                            0 <= j < k ==> (#[trigger] r@[head.len() + j])@ == ref_of(
                                steps[j].to,
                                steps[j].pos,
                            ),
                    decreases c.steps@.len() - k,
                {
                    r.push(
                        Decl {
                            name: copy_chars(&c.steps[k].to),
                            ty: None,
                            doc: Vec::new(),
                            pos: c.steps[k].pos,
                        },
                    );
                    proof {
                        assert(lines(Seq::<Vec<char>>::empty()) =~= Seq::<Seq<char>>::empty());
                        assert(steps[k as int] == crate::syntax::step_model(c.steps@[k as int]));
                    }
                    k = k + 1;
                }
                proof {
                    assert forall|j: int| head.len() <= j < r@.len() implies r@[j]@ == ref_of(
                        steps[j - head.len()].to,
                        steps[j - head.len()].pos,
                    ) by {
                        let k = j - head.len();
                        assert(r@[head.len() + k]@ == ref_of(steps[k].to, steps[k].pos));
                    }
                    assert(decl_models(r@) =~= before + chain_refs(c.first@, c.pos, steps));
                }
            },
        }
        proof {
            assert(sm.subrange(0, i + 1).drop_last() =~= sm.subrange(0, i as int));
            assert(sm.subrange(0, i + 1).last() == sm[i as int]);
            assert(decl_models(r@) =~= first + chain_decls(sm.subrange(0, i + 1)));
        }
        i = i + 1;
    }
    proof {
        assert(sm.subrange(0, ss@.len() as int) =~= sm);
    }
    r
}

/// Every consecutive pair of the chains, as `links` lists them.
pub fn collect_links(ss: &Vec<Stmt>) -> (r: Vec<Link>)
    ensures
        link_models(r@) == links(stmt_models(ss@)),
{
    let ghost sm = stmt_models(ss@);
    let mut r: Vec<Link> = Vec::new();
    let mut i: usize = 0;
    while i < ss.len()
        invariant
            i <= ss@.len(),
            sm == stmt_models(ss@),
            link_models(r@) == links(sm.subrange(0, i as int)),
        decreases ss@.len() - i,
    {
        let ghost before = link_models(r@);
        match &ss[i] {
            Stmt::Node(_) => {},
            Stmt::Chain(c) => {
                let ghost steps = crate::syntax::step_models(c.steps@);
                let ghost cl = chain_links(lines(c.doc@), c.first@, steps);
                let mut k: usize = 0;
                while k < c.steps.len()
                    invariant
                        k <= c.steps@.len(),
                        steps == crate::syntax::step_models(c.steps@),
                        cl == chain_links(lines(c.doc@), c.first@, steps),
                        r@.len() == before.len() + k,
                        forall|j: int| 0 <= j < before.len() ==> (#[trigger] r@[j])@ == before[j],
                        forall|j: int| 0 <= j < k ==> (#[trigger] r@[before.len() + j])@ == cl[j],
                    decreases c.steps@.len() - k,
                {
                    let from = if k == 0 {
                        copy_chars(&c.first)
                    } else {
                        copy_chars(&c.steps[k - 1].to)
                    };
                    let l = Link {
                        from,
                        to: copy_chars(&c.steps[k].to),
                        arrow: copy_arrow(&c.steps[k].arrow),
                        doc: join_lines(&c.doc, &c.steps[k].doc),
                        pos: c.steps[k].pos,
                    };
                    proof {
                        assert(steps[k as int] == crate::syntax::step_model(c.steps@[k as int]));
                        if k > 0 {
                            assert(steps[k - 1] == crate::syntax::step_model(c.steps@[k - 1]));
                        }
                        assert(l@ == cl[k as int]);
                    }
                    r.push(l);
                    k = k + 1;
                }
                proof {
                    assert forall|j: int| before.len() <= j < r@.len() implies r@[j]@ == cl[j
                        - before.len()] by {
                        let k = j - before.len();
                        assert(r@[before.len() + k]@ == cl[k]);
                    }
                    assert(link_models(r@) =~= before + cl);
                }
            },
        }
        proof {
            assert(sm.subrange(0, i + 1).drop_last() =~= sm.subrange(0, i as int));
            assert(sm.subrange(0, i + 1).last() == sm[i as int]);
            assert(link_models(r@) =~= links(sm.subrange(0, i + 1)));
        }
        i = i + 1;
    }
    proof {
        assert(sm.subrange(0, ss@.len() as int) =~= sm);
    }
    r
}

/// Once a prefix of the mentions fails, the whole fold fails the same way.
pub proof fn lemma_fold_nodes_err(ds: Seq<DeclModel>, k: int)
    requires
        0 <= k <= ds.len(),
        fold_nodes(ds.subrange(0, k)) is Err,
    ensures
        fold_nodes(ds) == fold_nodes(ds.subrange(0, k)),
    decreases ds.len() - k,
{
    if k == ds.len() {
        assert(ds.subrange(0, k) =~= ds);
    } else {
        assert(ds.drop_last().subrange(0, k) =~= ds.subrange(0, k));
        lemma_fold_nodes_err(ds.drop_last(), k);
    }
}

/// Once a prefix of the links fails, the whole fold fails the same way.
pub proof fn lemma_fold_edges_err(ls: Seq<LinkModel>, rename: bool, k: int)
    requires
        0 <= k <= ls.len(),
        fold_edges(ls.subrange(0, k), rename) is Err,
    ensures
        fold_edges(ls, rename) == fold_edges(ls.subrange(0, k), rename),
    decreases ls.len() - k,
{
    if k == ls.len() {
        assert(ls.subrange(0, k) =~= ls);
    } else {
        assert(ls.drop_last().subrange(0, k) =~= ls.subrange(0, k));
        lemma_fold_edges_err(ls.drop_last(), rename, k);
    }
}

/// The index of the node called `name`, if there is one.
pub fn find_index(ns: &Vec<Node>, name: &Vec<char>) -> (r: Option<usize>)
    ensures
        match r {
            Some(j) => find_node(node_models(ns@), name@) == j && j < ns@.len(),
            None => find_node(node_models(ns@), name@) == -1,
        },
{
    let ghost m = node_models(ns@);
    let mut i: usize = 0;
    while i < ns.len()
        invariant
            i <= ns@.len(),
            m == node_models(ns@),
            find_from(m, name@, 0) == find_from(m, name@, i as int),
        decreases ns@.len() - i,
    {
        if same_chars(&ns[i].name, name) {
            return Some(i);
        }
        i = i + 1;
    }
    None
}

/// Add one mention of a node, as `merge` describes.
pub fn merge_into(ns: &mut Vec<Node>, d: &Decl) -> (r: Result<(), Error>)
    ensures
        match r {
            Ok(()) => merge(node_models(old(ns)@), d@) == Ok::<Seq<NodeModel>, Error>(
                node_models(final(ns)@),
            ),
            Err(e) => merge(node_models(old(ns)@), d@) == Err::<Seq<NodeModel>, Error>(e),
        },
{
    let ghost m = node_models(ns@);
    match find_index(ns, &d.name) {
        None => {
            ns.push(Node { name: copy_chars(&d.name), ty: copy_opt(&d.ty), doc: copy_lines(&d.doc) });
            proof {
                assert(node_models(ns@) =~= m.push(NodeModel { name: d.name@, ty: opt(d.ty), doc: lines(d.doc@) }));
            }
            Ok(())
        },
        Some(j) => {
            let clash = match (&ns[j].ty, &d.ty) {
                (Some(a), Some(b)) => !same_chars(a, b),
                _ => false,
            };
            if clash {
                return Err(Error::new(ErrorKind::IncompatibleRedefinition, d.pos));
            }
            let ty = if ns[j].ty.is_some() {
                copy_opt(&ns[j].ty)
            } else {
                copy_opt(&d.ty)
            };
            let doc = join_lines(&ns[j].doc, &d.doc);
            let name = copy_chars(&ns[j].name);
            let merged = Node { name, ty, doc };
            ns.set(j, merged);
            proof {
                assert(node_models(ns@) =~= m.update(j as int, merged@));
            }
            Ok(())
        },
    }
}

/// Fold every mention into the node list, as `fold_nodes` describes.
pub fn fold_decls(ds: &Vec<Decl>) -> (r: Result<Vec<Node>, Error>)
    ensures
        match r {
            Ok(ns) => fold_nodes(decl_models(ds@)) == Ok::<Seq<NodeModel>, Error>(node_models(ns@)),
            Err(e) => fold_nodes(decl_models(ds@)) == Err::<Seq<NodeModel>, Error>(e),
        },
{
    let ghost dm = decl_models(ds@);
    let mut ns: Vec<Node> = Vec::new();
    proof {
        assert(dm.subrange(0, 0) =~= Seq::<DeclModel>::empty());
        assert(node_models(ns@) =~= Seq::<NodeModel>::empty());
    }
    let mut i: usize = 0;
    while i < ds.len()
        invariant
            i <= ds@.len(),
            dm == decl_models(ds@),
            fold_nodes(dm.subrange(0, i as int)) == Ok::<Seq<NodeModel>, Error>(node_models(ns@)),
        decreases ds@.len() - i,
    {
        let res = merge_into(&mut ns, &ds[i]);
        proof {
            assert(dm.subrange(0, i + 1).drop_last() =~= dm.subrange(0, i as int));
            assert(dm.subrange(0, i + 1).last() == ds@[i as int]@);
        }
        match res {
            Err(e) => {
                proof {
                    lemma_fold_nodes_err(dm, i + 1);
                }
                return Err(e);
            },
            Ok(()) => {},
        }
        i = i + 1;
    }
    proof {
        assert(dm.subrange(0, ds@.len() as int) =~= dm);
    }
    Ok(ns)
}

/// Whether an edge from `from` to `to` is present.
pub fn find_pair(es: &Vec<Edge>, from: &Vec<char>, to: &Vec<char>) -> (r: bool)
    ensures
        r == has_pair(edge_models(es@), from@, to@),
{
    let ghost m = edge_models(es@);
    let mut i: usize = 0;
    while i < es.len()
        invariant
            i <= es@.len(),
            m == edge_models(es@),
            forall|j: int| 0 <= j < i ==> !((#[trigger] m[j]).from == from@ && m[j].to == to@),
        decreases es@.len() - i,
    {
        if same_chars(&es[i].from, from) && same_chars(&es[i].to, to) {
            proof {
                assert(m[i as int].from == from@ && m[i as int].to == to@);
            }
            return true;
        }
        i = i + 1;
    }
    false
}

/// Whether an edge from `from` already has the method name `method`.
pub fn find_method(es: &Vec<Edge>, from: &Vec<char>, method: &Vec<char>) -> (r: bool)
    ensures
        r == has_method(edge_models(es@), from@, method@),
{
    let ghost m = edge_models(es@);
    let mut i: usize = 0;
    while i < es.len()
        invariant
            i <= es@.len(),
            m == edge_models(es@),
            forall|j: int|
                0 <= j < i ==> !((#[trigger] m[j]).from == from@ && m[j].method == method@),
        decreases es@.len() - i,
    {
        if same_chars(&es[i].from, from) && same_chars(&es[i].method, method) {
            proof {
                assert(m[i as int].from == from@ && m[i as int].method == method@);
            }
            return true;
        }
        i = i + 1;
    }
    false
}

/// Add the edge of one link, as `add_edge` describes.
pub fn push_edge(es: &mut Vec<Edge>, l: &Link, rename: bool) -> (r: Result<(), Error>)
    ensures
        match r {
            Ok(()) => add_edge(edge_models(old(es)@), l@, rename) == Ok::<Seq<EdgeModel>, Error>(
                edge_models(final(es)@),
            ),
            Err(e) => add_edge(edge_models(old(es)@), l@, rename) == Err::<Seq<EdgeModel>, Error>(
                e,
            ),
        },
{
    let ghost m = edge_models(es@);
    if find_pair(es, &l.from, &l.to) {
        return Err(Error::new(ErrorKind::DuplicateEdge, l.pos));
    }
    let method = match &l.arrow {
        Arrow::Named(n) => copy_chars(n),
        _ => match method_name_for(&l.to, rename) {
            Some(name) => name,
            None => {
                return Err(Error::new(ErrorKind::InvalidMethodName, l.pos));
            },
        },
    };
    assert(link_method(l@, rename) == Some(method@));
    if find_method(es, &l.from, &method) {
        return Err(Error::new(ErrorKind::DuplicateMethod, l.pos));
    }
    let doc = match &l.arrow {
        Arrow::Documented(t) => {
            let mut one: Vec<Vec<char>> = Vec::new();
            one.push(copy_chars(t));
            proof {
                assert(lines(one@) =~= seq![t@]);
            }
            join_lines(&l.doc, &one)
        },
        _ => copy_lines(&l.doc),
    };
    let e = Edge { from: copy_chars(&l.from), to: copy_chars(&l.to), method, doc };
    es.push(e);
    proof {
        assert(edge_models(es@) =~= m.push(e@));
    }
    Ok(())
}

/// Fold every link into the edge list, as `fold_edges` describes.
pub fn fold_links(ls: &Vec<Link>, rename: bool) -> (r: Result<Vec<Edge>, Error>)
    ensures
        match r {
            Ok(es) => fold_edges(link_models(ls@), rename) == Ok::<Seq<EdgeModel>, Error>(
                edge_models(es@),
            ),
            Err(e) => fold_edges(link_models(ls@), rename) == Err::<Seq<EdgeModel>, Error>(e),
        },
{
    let ghost lm = link_models(ls@);
    let mut es: Vec<Edge> = Vec::new();
    proof {
        assert(lm.subrange(0, 0) =~= Seq::<LinkModel>::empty());
        assert(edge_models(es@) =~= Seq::<EdgeModel>::empty());
    }
    let mut i: usize = 0;
    while i < ls.len()
        invariant
            i <= ls@.len(),
            lm == link_models(ls@),
            fold_edges(lm.subrange(0, i as int), rename) == Ok::<Seq<EdgeModel>, Error>(
                edge_models(es@),
            ),
        decreases ls@.len() - i,
    {
        let res = push_edge(&mut es, &ls[i], rename);
        proof {
            assert(lm.subrange(0, i + 1).drop_last() =~= lm.subrange(0, i as int));
            assert(lm.subrange(0, i + 1).last() == ls@[i as int]@);
        }
        match res {
            Err(e) => {
                proof {
                    lemma_fold_edges_err(lm, rename, i + 1);
                }
                return Err(e);
            },
            Ok(()) => {},
        }
        i = i + 1;
    }
    proof {
        assert(lm.subrange(0, ls@.len() as int) =~= lm);
    }
    Ok(es)
}

pub fn copy_node(n: &Node) -> (r: Node)
    ensures
        r@ == n@,
{
    Node { name: copy_chars(&n.name), ty: copy_opt(&n.ty), doc: copy_lines(&n.doc) }
}

pub fn copy_edge(e: &Edge) -> (r: Edge)
    ensures
        r@ == e@,
{
    Edge {
        from: copy_chars(&e.from),
        to: copy_chars(&e.to),
        method: copy_chars(&e.method),
        doc: copy_lines(&e.doc),
    }
}

/// The nodes in ascending order of their names, as `sort_by` describes.
pub fn sort_nodes(ns: &Vec<Node>) -> (r: Vec<Node>)
    ensures
        node_models(r@) == sort_by(node_models(ns@), node_lt()),
{
    let ghost nm = node_models(ns@);
    let mut r: Vec<Node> = Vec::new();
    let mut i: usize = 0;
    proof {
        assert(node_models(r@) =~= sort_by(nm.subrange(0, 0), node_lt()));
    }
    while i < ns.len()
        invariant
            i <= ns@.len(),
            nm == node_models(ns@),
            node_models(r@) == sort_by(nm.subrange(0, i as int), node_lt()),
        decreases ns@.len() - i,
    {
        let ghost rm = node_models(r@);
        let x = &ns[i];
        let mut k: usize = 0;
        proof {
            assert(rm.subrange(0, rm.len() as int) =~= rm);
        }
        while k < r.len() && less_chars(&r[k].name, &x.name)
            invariant
                k <= r@.len(),
                rm == node_models(r@),
                sorted_pos(rm, x@, node_lt()) == k + sorted_pos(
                    rm.subrange(k as int, rm.len() as int),
                    x@,
                    node_lt(),
                ),
            decreases r@.len() - k,
        {
            proof {
                assert(rm.subrange(k as int, rm.len() as int).drop_first() =~= rm.subrange(
                    k + 1,
                    rm.len() as int,
                ));
            }
            k = k + 1;
        }
        proof {
            lemma_sorted_pos(rm, x@, node_lt());
        }
        r.insert(k, copy_node(x));
        proof {
            assert(nm.subrange(0, i + 1).drop_last() =~= nm.subrange(0, i as int));
            assert(nm.subrange(0, i + 1).last() == x@);
            assert(node_models(r@) =~= rm.insert(k as int, x@));
        }
        i = i + 1;
    }
    proof {
        assert(nm.subrange(0, ns@.len() as int) =~= nm);
    }
    r
}

/// Whether edge `a` comes before edge `b`.
fn edge_before(a: &Edge, b: &Edge) -> (r: bool)
    ensures
        r == (edge_lt())(a@, b@),
{
    less_chars(&a.from, &b.from) || (same_chars(&a.from, &b.from) && less_chars(&a.to, &b.to))
}

/// The edges in ascending order of (source, destination), as `sort_by` describes.
pub fn sort_edges(es: &Vec<Edge>) -> (r: Vec<Edge>)
    ensures
        edge_models(r@) == sort_by(edge_models(es@), edge_lt()),
{
    let ghost em = edge_models(es@);
    let mut r: Vec<Edge> = Vec::new();
    let mut i: usize = 0;
    proof {
        assert(edge_models(r@) =~= sort_by(em.subrange(0, 0), edge_lt()));
    }
    while i < es.len()
        invariant
            i <= es@.len(),
            em == edge_models(es@),
            edge_models(r@) == sort_by(em.subrange(0, i as int), edge_lt()),
        decreases es@.len() - i,
    {
        let ghost rm = edge_models(r@);
        let x = &es[i];
        let mut k: usize = 0;
        proof {
            assert(rm.subrange(0, rm.len() as int) =~= rm);
        }
        while k < r.len() && edge_before(&r[k], x)
            invariant
                k <= r@.len(),
                rm == edge_models(r@),
                sorted_pos(rm, x@, edge_lt()) == k + sorted_pos(
                    rm.subrange(k as int, rm.len() as int),
                    x@,
                    edge_lt(),
                ),
            decreases r@.len() - k,
        {
            proof {
                assert(rm.subrange(k as int, rm.len() as int).drop_first() =~= rm.subrange(
                    k + 1,
                    rm.len() as int,
                ));
            }
            k = k + 1;
        }
        proof {
            lemma_sorted_pos(rm, x@, edge_lt());
        }
        r.insert(k, copy_edge(x));
        proof {
            assert(em.subrange(0, i + 1).drop_last() =~= em.subrange(0, i as int));
            assert(em.subrange(0, i + 1).last() == x@);
            assert(edge_models(r@) =~= rm.insert(k as int, x@));
        }
        i = i + 1;
    }
    proof {
        assert(em.subrange(0, es@.len() as int) =~= em);
    }
    r
}

/// A checked graph: the nodes and edges that `build_spec` describes.
pub struct Graph {
    pub nodes: Vec<Node>,
    pub edges: Vec<Edge>,
}

impl Graph {
    pub open spec fn nodes_m(&self) -> Seq<NodeModel> {
        node_models(self.nodes@)
    }

    pub open spec fn edges_m(&self) -> Seq<EdgeModel> {
        edge_models(self.edges@)
    }

    /// Valid, as `graph_wf` states; every graph that `build` returns is.
    pub open spec fn wf(&self) -> bool {
        crate::laws::graph_wf(self.nodes_m(), self.edges_m())
    }

    /// Build the graph of a list of statements, with method names derived in
    /// snake case when `rename` holds. Fails exactly as `build_spec` does; on
    /// success the nodes are sorted by name and the edges by (source,
    /// destination), as `build_spec` states.
    pub fn build(ss: &Vec<Stmt>, rename: bool, at: usize) -> (r: Result<Graph, Error>)
        ensures
            match r {
                Ok(g) => build_spec(stmt_models(ss@), rename, at) == Ok::<
                    (Seq<NodeModel>, Seq<EdgeModel>),
                    Error,
                >((g.nodes_m(), g.edges_m())),
                Err(e) => build_spec(stmt_models(ss@), rename, at) == Err::<
                    (Seq<NodeModel>, Seq<EdgeModel>),
                    Error,
                >(e),
            },
            r matches Ok(g) ==> g.wf(),
    {
        let ds = collect_decls(ss);
        let nodes = fold_decls(&ds)?;
        let ls = collect_links(ss);
        let edges = fold_links(&ls, rename)?;
        if edges.len() == 0 {
            return Err(Error::new(ErrorKind::NoEdges, at));
        }
        let g = Graph { nodes: sort_nodes(&nodes), edges: sort_edges(&edges) };
        proof {
            crate::laws::lemma_build_wf(stmt_models(ss@), rename, at, g.nodes_m(), g.edges_m());
        }
        Ok(g)
    }
}

} // verus!
