//! A parsed and checked state machine, ready to be written out as Rust code
//! or drawn as a diagram.
use vstd::prelude::*;
use crate::config::Trust;
use crate::error::{Error, ErrorKind};
use crate::names::{generics_split, parses_as_meta, parses_as_where, rust_meta, rust_where, split_generics};
use crate::graph::{build_spec, EdgeModel, Graph, NodeModel};
use crate::plan::{plan, plan_spec, variant_models};
use crate::render::{doc_attrs, lemma_plan_fits, push_docs, render, source_text, Ctx, CtxModel};
use crate::syntax::{machine_at, machine_model, parse_machine, stmt_models, Machine, MachineModel};
use crate::text::{chars_of, copy_chars, push_chars, push_str, string_of};
use crate::render::{concat, lemma_concat_step};
use crate::topology::{has_in, has_out, Kind};

verus! {

/// Renders a diagram of the machine for its documentation.
///
/// A closure has no specification of what it returns, so closures do not
/// implement this trait; wrap one in a type of your own instead.
pub trait Renderer {
    /// Whether `out` is an answer this renderer may give for `diagram`.
    spec fn renders(&self, diagram: Seq<char>, out: Option<String>) -> bool;

    /// Return `None` to skip rendering.
    fn render(&self, diagram: &str) -> (r: Option<String>)
        ensures
            self.renders(diagram@, r),
    ;
}

/// Skip rendering entirely.
impl Renderer for () {
    open spec fn renders(&self, diagram: Seq<char>, out: Option<String>) -> bool {
        out is None
    }

    fn render(&self, diagram: &str) -> (r: Option<String>) {
        None
    }
}

/// Forward to the inner renderer, if present.
impl<T: Renderer> Renderer for Option<T> {
    open spec fn renders(&self, diagram: Seq<char>, out: Option<String>) -> bool {
        match self {
            Some(it) => it.renders(diagram, out),
            None => out is None,
        }
    }

    fn render(&self, diagram: &str) -> (r: Option<String>) {
        match self {
            Some(it) => it.render(diagram),
            None => None,
        }
    }
}

/// A renderer that embeds a script which loads `mermaidjs` into the docs.
pub struct Mermaid(
    /// The URL to import mermaid from.
    pub String,
);

impl Mermaid {
    pub fn new() -> (r: Mermaid)
        ensures
            r.0@ == "https://cdn.jsdelivr.net/npm/mermaid@11/dist/mermaid.esm.min.mjs"@,
    {
        Mermaid(String::from_str("https://cdn.jsdelivr.net/npm/mermaid@11/dist/mermaid.esm.min.mjs"))
    }
}

impl Default for Mermaid {
    fn default() -> (r: Mermaid)
        ensures
            r.0@ == "https://cdn.jsdelivr.net/npm/mermaid@11/dist/mermaid.esm.min.mjs"@,
    {
        Mermaid::new()
    }
}

impl Renderer for Mermaid {
    open spec fn renders(&self, diagram: Seq<char>, out: Option<String>) -> bool {
        out matches Some(t) && t@ == mermaid_block_text(diagram, self.0@)
    }

    fn render(&self, diagram: &str) -> (r: Option<String>) {
        Some(string_of(&mermaid_block(diagram, self.0.as_str())))
    }
}

/// The diagram in a `<pre class="mermaid">` block, with the script that loads mermaid.
pub open spec fn mermaid_block_text(diagram: Seq<char>, url: Seq<char>) -> Seq<char> {
    "<pre class=\"mermaid\">\n"@ + diagram + "\n</pre>\n<script type=\"module\">\n  import mermaid from \""@
        + url + "\";\n  var doc_theme = localStorage.getItem(\"rustdoc-theme\");\n"@
        + "  if (doc_theme === \"dark\" || doc_theme === \"ayu\") mermaid.initialize({theme: \"dark\"});\n</script>"@
}

pub fn mermaid_block(diagram: &str, url: &str) -> (r: Vec<char>)
    ensures
        r@ == mermaid_block_text(diagram@, url@),
{
    let mut out: Vec<char> = Vec::new();
    push_str(&mut out, "<pre class=\"mermaid\">\n");
    push_str(&mut out, diagram);
    push_str(&mut out, "\n</pre>\n<script type=\"module\">\n  import mermaid from \"");
    push_str(&mut out, url);
    push_str(&mut out, "\";\n  var doc_theme = localStorage.getItem(\"rustdoc-theme\");\n");
    push_str(
        &mut out,
        "  if (doc_theme === \"dark\" || doc_theme === \"ayu\") mermaid.initialize({theme: \"dark\"});\n</script>",
    );
    proof {
        assert(out@ =~= mermaid_block_text(diagram@, url@));
    }
    out
}

/// A checked machine: its names, its options and its graph.
pub struct FsmEntry {
    pub doc: Vec<Vec<char>>,
    pub ctx: Ctx,
    pub graph: Graph,
    pub render_mermaid: bool,
}

impl FsmEntry {
    /// Valid: its graph is, as every machine that `parse` returns is.
    pub open spec fn wf(&self) -> bool {
        self.graph.wf()
    }
}

impl View for FsmEntry {
    type V = CheckedModel;

    open spec fn view(&self) -> CheckedModel {
        CheckedModel {
            doc: crate::graph::lines(self.doc@),
            ctx: self.ctx@,
            mermaid: self.render_mermaid,
            nodes: self.graph.nodes_m(),
            edges: self.graph.edges_m(),
        }
    }
}

/// The generic parameters of the entry types: `'state` before the machine's own.
pub open spec fn entry_generics(g: Seq<char>) -> Seq<char> {
    "<'state, "@ + g.subrange(1, g.len() - 1) + ">"@
}

/// The names of the generated items for a machine: the entry type defaults
/// to the machine's visibility and its name followed by `Entry`; generic
/// parameters are split as syn splits them; `None` where they do not parse.
pub open spec fn ctx_of(m: MachineModel) -> Option<CtxModel> {
    let split = if m.generics.len() == 0 {
        Some((Seq::<char>::empty(), Seq::<char>::empty(), "<'state>"@, "<'state>"@))
    } else if m.generics.len() < 2 {
        None
    } else {
        match (generics_split(m.generics), generics_split(entry_generics(m.generics))) {
            (Some((sp, sa)), Some((ep, ea))) => Some((sp, sa, ep, ea)),
            _ => None,
        }
    };
    match split {
        None => None,
        Some((sp, sa, ep, ea)) => Some(
            CtxModel {
                attrs: m.attrs,
                vis: m.vis,
                state: m.name,
                state_params: sp,
                state_args: sa,
                entry_params: ep,
                entry_args: ea,
                where_clause: if m.where_clause.len() == 0 {
                    Seq::empty()
                } else {
                    " "@ + m.where_clause
                },
                entry_vis: match m.options.entry {
                    Some((v, _)) => v,
                    None => m.vis,
                },
                entry: match m.options.entry {
                    Some((_, n)) => n,
                    None => m.name + "Entry"@,
                },
                core: m.options.path_to_core,
                trust: m.options.trust,
            },
        ),
    }
}

/// A checked machine, as plain values.
pub struct CheckedModel {
    pub doc: Seq<Seq<char>>,
    pub ctx: CtxModel,
    pub mermaid: bool,
    pub nodes: Seq<NodeModel>,
    pub edges: Seq<EdgeModel>,
}

/// A machine checked: its graph as `build_spec` gives it, then its generic
/// parameters, its attributes and its `where` clause, as syn reads them.
pub open spec fn check_spec(m: MachineModel) -> Result<CheckedModel, Error> {
    match build_spec(m.stmts, m.options.rename_methods, m.name_pos as usize) {
        Err(e) => Err(e),
        Ok((ns, es)) => match ctx_of(m) {
            None => Err(Error { kind: ErrorKind::InvalidGenerics, pos: m.name_pos as usize }),
            Some(c) => if !(forall|i: int| 0 <= i < m.attrs.len() ==> rust_meta(#[trigger] m.attrs[i])) {
                Err(Error { kind: ErrorKind::InvalidAttribute, pos: m.name_pos as usize })
            } else if m.where_clause.len() > 0 && !rust_where(m.where_clause) {
                Err(Error { kind: ErrorKind::InvalidWhere, pos: m.name_pos as usize })
            } else {
                Ok(
                    CheckedModel {
                        doc: m.doc,
                        ctx: c,
                        mermaid: m.options.mermaid,
                        nodes: ns,
                        edges: es,
                    },
                )
            },
        },
    }
}

/// The checked machine that a text describes, or the first failure.
pub open spec fn checked_text(t: Seq<char>) -> Result<CheckedModel, Error> {
    match machine_at(t) {
        Err(e) => Err(e),
        Ok(mm) => check_spec(mm),
    }
}

/// The generated source for a checked graph, with an optional diagram.
pub open spec fn generated(
    doc: Seq<Seq<char>>,
    c: CtxModel,
    ns: Seq<NodeModel>,
    es: Seq<EdgeModel>,
    diagram: Option<Seq<char>>,
) -> Seq<char> {
    doc_attrs(doc) + source_text(c, ns, es, plan_spec(ns, es), diagram)
}

/// The graph that a text describes: the machine is read as `machine_at`
/// describes, and its statements are checked as `build_spec` describes.
pub open spec fn graph_of_text(t: Seq<char>) -> Result<(Seq<NodeModel>, Seq<EdgeModel>), Error> {
    match machine_at(t) {
        Err(e) => Err(e),
        Ok(mm) => build_spec(mm.stmts, mm.options.rename_methods, mm.name_pos as usize),
    }
}

/// A line of a drawing: an edge, or a node that no edge touches.
pub open spec fn isolated(es: Seq<EdgeModel>, n: Seq<char>) -> bool {
    !has_in(es, n) && !has_out(es, n)
}

/// The lines of a drawing: one per edge, then one per node that no edge touches.
pub open spec fn drawing(arrow: Seq<char>, ns: Seq<NodeModel>, es: Seq<EdgeModel>) -> Seq<char> {
    concat(es.map_values(|e: EdgeModel| "  "@ + e.from + arrow + e.to + ";\n"@)) + concat(
        ns.map_values(
            |n: NodeModel|
                if isolated(es, n.name) {
                    "  "@ + n.name + ";\n"@
                } else {
                    Seq::empty()
                },
        ),
    )
}

/// The lines of a drawing of `g`, with `arrow` between the ends of each edge.
pub fn push_drawing(out: &mut Vec<char>, g: &Graph, arrow: &str)
    ensures
        final(out)@ == old(out)@ + drawing(arrow@, g.nodes_m(), g.edges_m()),
{
    let ghost start = out@;
    let ghost es = g.edges_m();
    let ghost ns = g.nodes_m();
    let ghost ep = es.map_values(|e: EdgeModel| "  "@ + e.from + arrow@ + e.to + ";\n"@);
    let ghost np = ns.map_values(
        |n: NodeModel|
            if isolated(es, n.name) {
                "  "@ + n.name + ";\n"@
            } else {
                Seq::empty()
            },
    );
    let mut i: usize = 0;
    while i < g.edges.len()
        invariant
            i <= g.edges@.len(),
            es == g.edges_m(),
            ep == es.map_values(|e: EdgeModel| "  "@ + e.from + arrow@ + e.to + ";\n"@),
            out@ == start + concat(ep.subrange(0, i as int)),
        decreases g.edges@.len() - i,
    {
        let ghost before = out@;
        push_str(out, "  ");
        push_chars(out, &g.edges[i].from);
        push_str(out, arrow);
        push_chars(out, &g.edges[i].to);
        push_str(out, ";\n");
        proof {
            assert(out@ =~= before + ep[i as int]);
            lemma_concat_step(ep, i as int);
        }
        i = i + 1;
    }
    proof {
        assert(ep.subrange(0, g.edges@.len() as int) =~= ep);
    }
    let ghost mid = out@;
    let mut i: usize = 0;
    while i < g.nodes.len()
        invariant
            i <= g.nodes@.len(),
            es == g.edges_m(),
            ns == g.nodes_m(),
            np == ns.map_values(
                |n: NodeModel|
                    if isolated(es, n.name) {
                        "  "@ + n.name + ";\n"@
                    } else {
                        Seq::empty()
                    },
            ),
            out@ == mid + concat(np.subrange(0, i as int)),
        decreases g.nodes@.len() - i,
    {
        let ghost before = out@;
        if g.kind(&g.nodes[i].name) == Kind::Isolate {
            push_str(out, "  ");
            push_chars(out, &g.nodes[i].name);
            push_str(out, ";\n");
        }
        proof {
            assert(out@ =~= before + np[i as int]);
            lemma_concat_step(np, i as int);
        }
        i = i + 1;
    }
    proof {
        assert(np.subrange(0, g.nodes@.len() as int) =~= np);
        assert(out@ =~= start + drawing(arrow@, ns, es));
    }
}

impl FsmEntry {
    /// The graph in the DOT language.
    pub fn dot(&self) -> (r: String)
        ensures
            r@ == "digraph "@ + self.ctx.state@ + "{\n"@ + drawing(
                " -> "@,
                self.graph.nodes_m(),
                self.graph.edges_m(),
            ) + "}\n"@,
    {
        let mut out: Vec<char> = Vec::new();
        push_str(&mut out, "digraph ");
        push_chars(&mut out, &self.ctx.state);
        push_str(&mut out, "{\n");
        push_drawing(&mut out, &self.graph, " -> ");
        push_str(&mut out, "}\n");
        proof {
            assert(out@ =~= "digraph "@ + self.ctx.state@ + "{\n"@ + drawing(
                " -> "@,
                self.graph.nodes_m(),
                self.graph.edges_m(),
            ) + "}\n"@);
        }
        string_of(&out)
    }

    /// The graph as a mermaid flowchart.
    pub fn mermaid(&self) -> (r: String)
        ensures
            r@ == "graph LR\n"@ + drawing(" --> "@, self.graph.nodes_m(), self.graph.edges_m()),
    {
        let mut out: Vec<char> = Vec::new();
        push_str(&mut out, "graph LR\n");
        push_drawing(&mut out, &self.graph, " --> ");
        string_of(&out)
    }

    /// Check a parsed machine, as `check_spec` describes.
    pub fn from_machine(m: Machine) -> (r: Result<FsmEntry, Error>)
        ensures
            match r {
                Ok(f) => check_spec(machine_model(m)) == Ok::<CheckedModel, Error>(f@) && f.wf(),
                Err(e) => check_spec(machine_model(m)) == Err::<CheckedModel, Error>(e),
            },
    {
        let ghost mm = machine_model(m);
        let graph = match Graph::build(&m.stmts, m.options.rename_methods, m.name_pos) {
            Ok(g) => g,
            Err(e) => {
                return Err(e);
            },
        };
        let (state_params, state_args, entry_params, entry_args) = if m.generics.len() == 0 {
            let ep = chars_of("<'state>");
            let ea = chars_of("<'state>");
            (Vec::new(), Vec::new(), ep, ea)
        } else if m.generics.len() < 2 {
            return Err(Error::new(ErrorKind::InvalidGenerics, m.name_pos));
        } else {
            let n = m.generics.len();
            let mut eg = chars_of("<'state, ");
            let inner = crate::syntax::copy_range(&m.generics, 1, n - 1);
            push_chars(&mut eg, &inner);
            push_str(&mut eg, ">");
            proof {
                assert(eg@ =~= entry_generics(m.generics@));
            }
            match (split_generics(&m.generics), split_generics(&eg)) {
                (Some((sp, sa)), Some((ep, ea))) => (sp, sa, ep, ea),
                _ => {
                    return Err(Error::new(ErrorKind::InvalidGenerics, m.name_pos));
                },
            }
        };
        let (entry_vis, entry) = match &m.options.entry {
            Some((v, n)) => (copy_chars(v), copy_chars(n)),
            None => {
                let mut n = copy_chars(&m.name);
                push_str(&mut n, "Entry");
                (copy_chars(&m.vis), n)
            },
        };
        let where_clause = if m.where_clause.len() == 0 {
            Vec::new()
        } else {
            let mut w = chars_of(" ");
            push_chars(&mut w, &m.where_clause);
            w
        };
        let ctx = Ctx {
            attrs: m.attrs,
            vis: m.vis,
            state: m.name,
            state_params,
            state_args,
            entry_params,
            entry_args,
            where_clause,
            entry_vis,
            entry,
            core: m.options.path_to_core,
            trust: m.options.trust,
        };
        proof {
            assert(ctx_of(mm) == Some(ctx@)) by {
                if mm.generics.len() == 0 {
                    assert(ctx@.state_params =~= Seq::<char>::empty());
                    assert(ctx@.state_args =~= Seq::<char>::empty());
                }
                if mm.where_clause.len() == 0 {
                    assert(ctx@.where_clause =~= Seq::<char>::empty());
                }
            }
        }
        let mut i: usize = 0;
        while i < ctx.attrs.len()
            invariant
                i <= ctx.attrs@.len(),
                mm == machine_model(m),
                ctx_of(mm) == Some(ctx@),
                graph.wf(),
                build_spec(mm.stmts, mm.options.rename_methods, mm.name_pos as usize) == Ok::<
                    (Seq<NodeModel>, Seq<EdgeModel>),
                    Error,
                >((graph.nodes_m(), graph.edges_m())),
                mm.attrs == crate::graph::lines(ctx.attrs@),
                forall|j: int| 0 <= j < i ==> rust_meta(#[trigger] mm.attrs[j]),
            decreases ctx.attrs@.len() - i,
        {
            proof {
                assert(mm.attrs[i as int] == ctx.attrs@[i as int]@);
            }
            if !parses_as_meta(&ctx.attrs[i]) {
                return Err(Error::new(ErrorKind::InvalidAttribute, m.name_pos));
            }
            i = i + 1;
        }
        if m.where_clause.len() > 0 && !parses_as_where(&m.where_clause) {
            return Err(Error::new(ErrorKind::InvalidWhere, m.name_pos));
        }
        Ok(FsmEntry { doc: m.doc, ctx, graph, render_mermaid: m.options.mermaid })
    }

    /// Read and check a machine description, as `checked_text` describes.
    pub fn parse(text: &str) -> (r: Result<FsmEntry, Error>)
        ensures
            match r {
                Ok(f) => checked_text(text@) == Ok::<CheckedModel, Error>(f@) && f.wf(),
                Err(e) => checked_text(text@) == Err::<CheckedModel, Error>(e),
            },
    {
        let m = match parse_machine(text) {
            Ok(m) => m,
            Err(e) => {
                return Err(e);
            },
        };
        FsmEntry::from_machine(m)
    }

    /// The generated Rust source, with `diagram` in the entry type's
    /// documentation where one is given.
    pub fn codegen_with(&self, diagram: Option<String>) -> (r: String)
        ensures
            r@ == generated(
                crate::graph::lines(self.doc@),
                self.ctx@,
                self.graph.nodes_m(),
                self.graph.edges_m(),
                match diagram {
                    Some(d) => Some(d@),
                    None => None,
                },
            ),
            self.wf() ==> crate::laws::text_laws(
                self.ctx@,
                self.graph.nodes_m(),
                self.graph.edges_m(),
                match diagram {
                    Some(d) => Some(d@),
                    None => None,
                },
            ),
    {
        let vs = plan(&self.graph);
        proof {
            if self.wf() {
                let dm = if diagram is Some {
                    Some(diagram->Some_0@)
                } else {
                    None::<Seq<char>>
                };
                crate::laws::law_generated_text(
                    self.ctx@,
                    self.graph.nodes_m(),
                    self.graph.edges_m(),
                    dm,
                );
            }
            lemma_plan_fits(self.graph.nodes_m(), self.graph.edges_m());
            assert forall|i: int| 0 <= i < vs@.len() implies crate::render::fits(
                (#[trigger] vs@[i])@,
                self.graph.edges@.len() as int,
            ) by {
                assert(variant_models(vs@).len() == vs@.len());
                assert(variant_models(vs@)[i] == vs@[i]@);
                assert(plan_spec(self.graph.nodes_m(), self.graph.edges_m())[i] == vs@[i]@);
            }
        }
        let d = match &diagram {
            Some(s) => Some(chars_of(s.as_str())),
            None => None,
        };
        let body = render(&self.ctx, &self.graph, &vs, &d);
        let mut out: Vec<char> = Vec::new();
        push_docs(&mut out, &self.doc);
        push_chars(&mut out, &body);
        proof {
            assert(out@ =~= Seq::<char>::empty() + doc_attrs(crate::graph::lines(self.doc@)) + body@);
            assert(crate::graph::opt(d) == match diagram {
                Some(d) => Some(d@),
                None => None::<Seq<char>>,
            });
        }
        string_of(&out)
    }

    /// The generated Rust source. Where diagrams are asked for, the renderer
    /// draws the mermaid diagram, and whatever it returns goes into the docs.
    pub fn codegen<R: Renderer>(&self, renderer: &R) -> (r: String)
        ensures
            !self.render_mermaid ==> r@ == generated(
                crate::graph::lines(self.doc@),
                self.ctx@,
                self.graph.nodes_m(),
                self.graph.edges_m(),
                None,
            ),
            self.render_mermaid ==> exists|o: Option<String>|
                renderer.renders(
                    "graph LR\n"@ + drawing(" --> "@, self.graph.nodes_m(), self.graph.edges_m()),
                    o,
                ) && r@ == generated(
                    crate::graph::lines(self.doc@),
                    self.ctx@,
                    self.graph.nodes_m(),
                    self.graph.edges_m(),
                    match o {
                        Some(t) => Some(t@),
                        None => None,
                    },
                ),
    {
        if self.render_mermaid {
            let diagram = self.mermaid();
            let rendered = renderer.render(diagram.as_str());
            let ghost d = if rendered is Some {
                Some(rendered->Some_0@)
            } else {
                None::<Seq<char>>
            };
            let ghost o = rendered;
            let r = self.codegen_with(rendered);
            proof {
                assert(renderer.renders(diagram@, o));
                assert(r@ == generated(
                    crate::graph::lines(self.doc@),
                    self.ctx@,
                    self.graph.nodes_m(),
                    self.graph.edges_m(),
                    d,
                ));
            }
            r
        } else {
            self.codegen_with(None)
        }
    }
}

} // verus!
