//! Rust source text for a planned machine.
use vstd::prelude::*;
use crate::config::Trust;
use crate::graph::{find_index, find_node, lines, EdgeModel, Graph, NodeModel};
use crate::plan::{MethodModel, MethodPlan, Shape, Signature, VariantModel, VariantPlan};
use crate::text::{push_chars, push_str};

verus! {

/// The names that the generated items use.
pub struct Ctx {
    /// Attributes of the state enum, as written between `#[` and `]`.
    pub attrs: Vec<Vec<char>>,
    pub vis: Vec<char>,
    pub state: Vec<char>,
    /// Generic parameters of the state enum with their bounds, or nothing.
    pub state_params: Vec<char>,
    /// Generic arguments that name the state enum, or nothing.
    pub state_args: Vec<char>,
    /// The state enum's parameters after the `'state` lifetime of the entry.
    pub entry_params: Vec<char>,
    pub entry_args: Vec<char>,
    /// ` where ...`, or nothing.
    pub where_clause: Vec<char>,
    pub entry_vis: Vec<char>,
    pub entry: Vec<char>,
    pub core: Vec<char>,
    pub trust: Trust,
}

pub struct CtxModel {
    pub attrs: Seq<Seq<char>>,
    pub vis: Seq<char>,
    pub state: Seq<char>,
    pub state_params: Seq<char>,
    pub state_args: Seq<char>,
    pub entry_params: Seq<char>,
    pub entry_args: Seq<char>,
    pub where_clause: Seq<char>,
    pub entry_vis: Seq<char>,
    pub entry: Seq<char>,
    pub core: Seq<char>,
    pub trust: Trust,
}

impl View for Ctx {
    type V = CtxModel;

    open spec fn view(&self) -> CtxModel {
        CtxModel {
            attrs: crate::graph::lines(self.attrs@),
            vis: self.vis@,
            state: self.state@,
            state_params: self.state_params@,
            state_args: self.state_args@,
            entry_params: self.entry_params@,
            entry_args: self.entry_args@,
            where_clause: self.where_clause@,
            entry_vis: self.entry_vis@,
            entry: self.entry@,
            core: self.core@,
            trust: self.trust,
        }
    }
}

pub open spec fn escaped_char(c: char) -> Seq<char> {
    if c == '"' {
        seq!['\\', '"']
    } else if c == '\\' {
        seq!['\\', '\\']
    } else if c == '\n' {
        seq!['\\', 'n']
    } else {
        seq![c]
    }
}

/// The text of a string literal's contents.
pub open spec fn escape_text(s: Seq<char>) -> Seq<char>
    decreases s.len(),
{
    if s.len() == 0 {
        Seq::empty()
    } else {
        escape_text(s.drop_last()) + escaped_char(s.last())
    }
}

pub fn push_escaped(out: &mut Vec<char>, s: &Vec<char>)
    ensures
        final(out)@ == old(out)@ + escape_text(s@),
{
    let ghost start = out@;
    let mut i: usize = 0;
    while i < s.len()
        invariant
            i <= s@.len(),
            out@ == start + escape_text(s@.subrange(0, i as int)),
        decreases s@.len() - i,
    {
        let c = s[i];
        if c == '"' {
            out.push('\\');
            out.push('"');
        } else if c == '\\' {
            out.push('\\');
            out.push('\\');
        } else if c == '\n' {
            out.push('\\');
            out.push('n');
        } else {
            out.push(c);
        }
        proof {
            assert(s@.subrange(0, i + 1).drop_last() =~= s@.subrange(0, i as int));
            assert(out@ =~= start + escape_text(s@.subrange(0, i + 1)));
        }
        i = i + 1;
    }
    proof {
        assert(s@.subrange(0, s@.len() as int) =~= s@);
    }
}

/// `#[doc = "line"]` on a line of its own.
pub open spec fn doc_attr(line: Seq<char>) -> Seq<char> {
    "#[doc = \""@ + escape_text(line) + "\"]\n"@
}

pub fn push_doc(out: &mut Vec<char>, line: &Vec<char>)
    ensures
        final(out)@ == old(out)@ + doc_attr(line@),
{
    let ghost start = out@;
    push_str(out, "#[doc = \"");
    push_escaped(out, line);
    push_str(out, "\"]\n");
    proof {
        assert(out@ =~= start + doc_attr(line@));
    }
}

pub open spec fn doc_attrs(ls: Seq<Seq<char>>) -> Seq<char>
    decreases ls.len(),
{
    if ls.len() == 0 {
        Seq::empty()
    } else {
        doc_attrs(ls.drop_last()) + doc_attr(ls.last())
    }
}

pub fn push_docs(out: &mut Vec<char>, ls: &Vec<Vec<char>>)
    ensures
        final(out)@ == old(out)@ + doc_attrs(lines(ls@)),
{
    let ghost start = out@;
    let mut i: usize = 0;
    while i < ls.len()
        invariant
            i <= ls@.len(),
            out@ == start + doc_attrs(lines(ls@.subrange(0, i as int))),
        decreases ls@.len() - i,
    {
        push_doc(out, &ls[i]);
        proof {
            assert(lines(ls@.subrange(0, i + 1)).drop_last() =~= lines(ls@.subrange(0, i as int)));
            assert(out@ =~= start + doc_attrs(lines(ls@.subrange(0, i + 1))));
        }
        i = i + 1;
    }
    proof {
        assert(ls@.subrange(0, ls@.len() as int) =~= ls@);
    }
}

/// The attributes of the state enum, one per line.
pub open spec fn attr_lines(attrs: Seq<Seq<char>>) -> Seq<char> {
    concat(attrs.map_values(|a: Seq<char>| "#["@ + a + "]\n"@))
}

pub fn push_attrs(out: &mut Vec<char>, attrs: &Vec<Vec<char>>)
    ensures
        final(out)@ == old(out)@ + attr_lines(crate::graph::lines(attrs@)),
{
    let ghost start = out@;
    let ghost pieces = crate::graph::lines(attrs@).map_values(|a: Seq<char>| "#["@ + a + "]\n"@);
    let mut i: usize = 0;
    while i < attrs.len()
        invariant
            i <= attrs@.len(),
            pieces == crate::graph::lines(attrs@).map_values(|a: Seq<char>| "#["@ + a + "]\n"@),
            out@ == start + concat(pieces.subrange(0, i as int)),
        decreases attrs@.len() - i,
    {
        let ghost before = out@;
        push_str(out, "#[");
        push_chars(out, &attrs[i]);
        push_str(out, "]\n");
        proof {
            assert(out@ =~= before + pieces[i as int]);
            lemma_concat_step(pieces, i as int);
        }
        i = i + 1;
    }
    proof {
        assert(pieces.subrange(0, attrs@.len() as int) =~= pieces);
    }
}

/// The variant of the state enum for one node.
pub open spec fn state_variant(n: NodeModel) -> Seq<char> {
    doc_attrs(n.doc) + n.name + match n.ty {
        Some(t) => "("@ + t + ")"@,
        None => Seq::empty(),
    } + ",\n"@
}

pub fn push_state_variant(out: &mut Vec<char>, g: &Graph, i: usize)
    requires
        i < g.nodes@.len(),
    ensures
        final(out)@ == old(out)@ + state_variant(g.nodes_m()[i as int]),
{
    let ghost start = out@;
    let n = &g.nodes[i];
    push_docs(out, &n.doc);
    push_chars(out, &n.name);
    match &n.ty {
        Some(t) => {
            push_str(out, "(");
            push_chars(out, t);
            push_str(out, ")");
        },
        None => {},
    }
    push_str(out, ",\n");
    proof {
        assert(out@ =~= start + state_variant(g.nodes_m()[i as int]));
    }
}

/// The state enum.
pub open spec fn state_enum(c: CtxModel, ns: Seq<NodeModel>) -> Seq<char> {
    attr_lines(c.attrs) + c.vis + " enum "@ + c.state + c.state_params + c.where_clause + " {\n"@
        + state_variants(ns) + "}\n"@
}

pub open spec fn state_variants(ns: Seq<NodeModel>) -> Seq<char>
    decreases ns.len(),
{
    if ns.len() == 0 {
        Seq::empty()
    } else {
        state_variants(ns.drop_last()) + state_variant(ns.last())
    }
}

pub fn push_state_enum(out: &mut Vec<char>, c: &Ctx, g: &Graph)
    ensures
        final(out)@ == old(out)@ + state_enum(c@, g.nodes_m()),
{
    let ghost start = out@;
    push_attrs(out, &c.attrs);
    push_chars(out, &c.vis);
    push_str(out, " enum ");
    push_chars(out, &c.state);
    push_chars(out, &c.state_params);
    push_chars(out, &c.where_clause);
    push_str(out, " {\n");
    let ghost mid = out@;
    let ghost ns = g.nodes_m();
    let mut i: usize = 0;
    while i < g.nodes.len()
        invariant
            i <= g.nodes@.len(),
            ns == g.nodes_m(),
            out@ == mid + state_variants(ns.subrange(0, i as int)),
        decreases g.nodes@.len() - i,
    {
        push_state_variant(out, g, i);
        proof {
            assert(ns.subrange(0, i + 1).drop_last() =~= ns.subrange(0, i as int));
            assert(out@ =~= mid + state_variants(ns.subrange(0, i + 1)));
        }
        i = i + 1;
    }
    push_str(out, "}\n");
    proof {
        assert(ns.subrange(0, g.nodes@.len() as int) =~= ns);
        assert(out@ =~= start + state_enum(c@, ns));
    }
}

/// The pieces of text, one after another.
pub open spec fn concat(s: Seq<Seq<char>>) -> Seq<char>
    decreases s.len(),
{
    if s.len() == 0 {
        Seq::empty()
    } else {
        concat(s.drop_last()) + s.last()
    }
}

pub proof fn lemma_concat_step(s: Seq<Seq<char>>, i: int)
    requires
        0 <= i < s.len(),
    ensures
        concat(s.subrange(0, i + 1)) == concat(s.subrange(0, i)) + s[i],
{
    assert(s.subrange(0, i + 1).drop_last() =~= s.subrange(0, i));
}

pub open spec fn ty_text(o: Option<Seq<char>>) -> Seq<char> {
    match o {
        Some(t) => t,
        None => Seq::empty(),
    }
}

/// The type of the node called `name`, as text; empty without a payload.
pub open spec fn ty_of(ns: Seq<NodeModel>, name: Seq<char>) -> Seq<char> {
    let j = find_node(ns, name);
    if 0 <= j < ns.len() {
        ty_text(ns[j].ty)
    } else {
        Seq::empty()
    }
}

pub fn push_ty_of(out: &mut Vec<char>, g: &Graph, name: &Vec<char>)
    ensures
        final(out)@ == old(out)@ + ty_of(g.nodes_m(), name@),
{
    match find_index(&g.nodes, name) {
        Some(j) => match &g.nodes[j].ty {
            Some(t) => push_chars(out, t),
            None => {
                assert(out@ =~= out@ + Seq::<char>::empty());
            },
        },
        None => {
            assert(out@ =~= out@ + Seq::<char>::empty());
        },
    }
}

/// What a transition does on a handle that does not match the state.
pub open spec fn panic_text(c: CtxModel) -> Seq<char> {
    if c.trust == Trust::Checked {
        c.core + "::panic!(\"entry struct was instantiated with a mismatched state\")"@
    } else {
        "unsafe { "@ + c.core + "::hint::unreachable_unchecked() }"@
    }
}

pub fn push_panic(out: &mut Vec<char>, c: &Ctx)
    ensures
        final(out)@ == old(out)@ + panic_text(c@),
{
    let ghost start = out@;
    match c.trust {
        Trust::Checked => {
            push_chars(out, &c.core);
            push_str(out, "::panic!(\"entry struct was instantiated with a mismatched state\")");
        },
        Trust::Trusted => {
            push_str(out, "unsafe { ");
            push_chars(out, &c.core);
            push_str(out, "::hint::unreachable_unchecked() }");
        },
    }
    proof {
        assert(out@ =~= start + panic_text(c@));
    }
}

pub open spec fn represents_line(c: CtxModel, name: Seq<char>) -> Seq<char> {
    " Represents [`"@ + c.state + "::"@ + name + "`]"@
}

pub open spec fn from_line(c: CtxModel, e: EdgeModel) -> Seq<char> {
    " - [`"@ + e.from + "`]("@ + c.state + "::"@ + e.from + ") via [`"@ + e.method + "`]("@ + e.from
        + "::"@ + e.method + ")"@
}

pub open spec fn to_line(c: CtxModel, name: Seq<char>, m: MethodModel) -> Seq<char> {
    " - [`"@ + m.to + "`]("@ + c.state + "::"@ + m.to + ") via [`"@ + m.name + "`]("@ + name
        + "::"@ + m.name + ")"@
}

/// Whether every edge index of a variant is an index into `es`.
pub open spec fn fits(v: VariantModel, n_edges: int) -> bool {
    &&& forall|k: int| 0 <= k < v.incoming.len() ==> 0 <= #[trigger] v.incoming[k] < n_edges
    &&& forall|k: int| 0 <= k < v.methods.len() ==> 0 <= (#[trigger] v.methods[k]).edge < n_edges
}

/// The documentation of an entry variant: what it represents, where it is
/// reachable from, and where it can go.
pub open spec fn entry_doc_lines(c: CtxModel, es: Seq<EdgeModel>, v: VariantModel) -> Seq<Seq<char>> {
    seq![represents_line(c, v.name)] + (if v.incoming.len() > 0 {
        seq![Seq::<char>::empty(), " This state is reachable from the following:"@]
            + v.incoming.map_values(|e: int| from_line(c, es[e]))
    } else {
        Seq::empty()
    }) + (if v.methods.len() > 0 {
        seq![Seq::<char>::empty(), " This state can transition to the following:"@]
            + v.methods.map_values(|m: MethodModel| to_line(c, v.name, m))
    } else {
        Seq::empty()
    })
}

fn line_of(s: &str) -> (r: Vec<char>)
    ensures
        r@ == s@,
{
    crate::text::chars_of(s)
}

pub fn entry_docs(c: &Ctx, g: &Graph, v: &VariantPlan) -> (r: Vec<Vec<char>>)
    requires
        fits(v@, g.edges@.len() as int),
    ensures
        lines(r@) == entry_doc_lines(c@, g.edges_m(), v@),
{
    let ghost es = g.edges_m();
    let ghost cm = c@;
    let mut r: Vec<Vec<char>> = Vec::new();
    let mut first: Vec<char> = Vec::new();
    push_str(&mut first, " Represents [`");
    push_chars(&mut first, &c.state);
    push_str(&mut first, "::");
    push_chars(&mut first, &v.name);
    push_str(&mut first, "`]");
    proof {
        assert(first@ =~= represents_line(cm, v.name@));
    }
    r.push(first);
    let ghost head = lines(r@);
    proof {
        assert(head =~= seq![represents_line(cm, v.name@)]);
    }
    let ghost inc_part: Seq<Seq<char>> = if v@.incoming.len() > 0 {
        seq![Seq::<char>::empty(), " This state is reachable from the following:"@]
            + v@.incoming.map_values(|e: int| from_line(cm, es[e]))
    } else {
        Seq::empty()
    };
    if v.incoming.len() > 0 {
        r.push(Vec::new());
        r.push(line_of(" This state is reachable from the following:"));
        let mut k: usize = 0;
        while k < v.incoming.len()
            invariant
                k <= v.incoming@.len(),
                es == g.edges_m(),
                cm == c@,
                fits(v@, g.edges@.len() as int),
                r@.len() == head.len() + 2 + k,
                forall|j: int| 0 <= j < head.len() ==> (#[trigger] r@[j])@ == head[j],
                r@[head.len() as int]@ == Seq::<char>::empty(),
                r@[head.len() + 1int]@ == " This state is reachable from the following:"@,
                forall|j: int|
                    0 <= j < k ==> (#[trigger] r@[head.len() + 2 + j])@ == from_line(
                        cm,
                        es[v@.incoming[j]],
                    ),
            decreases v.incoming@.len() - k,
        {
            let e = v.incoming[k];
            proof {
                assert(v@.incoming[k as int] == e as int);
            }
            let ed = &g.edges[e];
            let mut l: Vec<char> = Vec::new();
            push_str(&mut l, " - [`");
            push_chars(&mut l, &ed.from);
            push_str(&mut l, "`](");
            push_chars(&mut l, &c.state);
            push_str(&mut l, "::");
            push_chars(&mut l, &ed.from);
            push_str(&mut l, ") via [`");
            push_chars(&mut l, &ed.method);
            push_str(&mut l, "`](");
            push_chars(&mut l, &ed.from);
            push_str(&mut l, "::");
            push_chars(&mut l, &ed.method);
            push_str(&mut l, ")");
            proof {
                assert(l@ =~= from_line(cm, es[e as int]));
            }
            r.push(l);
            k = k + 1;
        }
        proof {
            assert forall|j: int| head.len() + 2 <= j < r@.len() implies r@[j]@ == from_line(
                cm,
                es[v@.incoming[j - head.len() - 2]],
            ) by {
                let k = j - head.len() - 2;
                assert(r@[head.len() + 2 + k]@ == from_line(cm, es[v@.incoming[k]]));
            }
            assert(lines(r@) =~= head + inc_part);
        }
    } else {
        proof {
            assert(lines(r@) =~= head + inc_part);
        }
    }
    let ghost mid = lines(r@);
    if v.methods.len() > 0 {
        r.push(Vec::new());
        r.push(line_of(" This state can transition to the following:"));
        let mut k: usize = 0;
        while k < v.methods.len()
            invariant
                k <= v.methods@.len(),
                es == g.edges_m(),
                cm == c@,
                r@.len() == mid.len() + 2 + k,
                forall|j: int| 0 <= j < mid.len() ==> (#[trigger] r@[j])@ == mid[j],
                r@[mid.len() as int]@ == Seq::<char>::empty(),
                r@[mid.len() + 1int]@ == " This state can transition to the following:"@,
                forall|j: int|
                    0 <= j < k ==> (#[trigger] r@[mid.len() + 2 + j])@ == to_line(
                        cm,
                        v@.name,
                        v@.methods[j],
                    ),
            decreases v.methods@.len() - k,
        {
            let m = &v.methods[k];
            let mut l: Vec<char> = Vec::new();
            push_str(&mut l, " - [`");
            push_chars(&mut l, &m.to);
            push_str(&mut l, "`](");
            push_chars(&mut l, &c.state);
            push_str(&mut l, "::");
            push_chars(&mut l, &m.to);
            push_str(&mut l, ") via [`");
            push_chars(&mut l, &m.name);
            push_str(&mut l, "`](");
            push_chars(&mut l, &v.name);
            push_str(&mut l, "::");
            push_chars(&mut l, &m.name);
            push_str(&mut l, ")");
            proof {
                assert(l@ =~= to_line(cm, v@.name, v@.methods[k as int]));
            }
            r.push(l);
            k = k + 1;
        }
        proof {
            assert forall|j: int| mid.len() + 2 <= j < r@.len() implies r@[j]@ == to_line(
                cm,
                v@.name,
                v@.methods[j - mid.len() - 2],
            ) by {
                let k = j - mid.len() - 2;
                assert(r@[mid.len() + 2 + k]@ == to_line(cm, v@.name, v@.methods[k]));
            }
            assert(lines(r@) =~= entry_doc_lines(cm, es, v@));
        }
    } else {
        proof {
            assert(lines(r@) =~= entry_doc_lines(cm, es, v@));
        }
    }
    r
}

/// The variant of the entry enum for one node.
pub open spec fn entry_variant(c: CtxModel, es: Seq<EdgeModel>, v: VariantModel) -> Seq<char> {
    doc_attrs(entry_doc_lines(c, es, v)) + v.name + match v.shape {
        Shape::Bare => Seq::empty(),
        Shape::Borrowed => "(&'state mut "@ + ty_text(v.ty) + ")"@,
        Shape::Handle => "("@ + v.name + c.entry_args + ")"@,
    } + ",\n"@
}

pub fn push_ty(out: &mut Vec<char>, t: &Option<Vec<char>>)
    ensures
        final(out)@ == old(out)@ + ty_text(crate::graph::opt(*t)),
{
    match t {
        Some(t) => push_chars(out, t),
        None => {
            assert(out@ =~= out@ + Seq::<char>::empty());
        },
    }
}

pub fn push_entry_variant(out: &mut Vec<char>, c: &Ctx, g: &Graph, v: &VariantPlan)
    requires
        fits(v@, g.edges@.len() as int),
    ensures
        final(out)@ == old(out)@ + entry_variant(c@, g.edges_m(), v@),
{
    let ghost start = out@;
    let docs = entry_docs(c, g, v);
    push_docs(out, &docs);
    push_chars(out, &v.name);
    match v.shape {
        Shape::Bare => {},
        Shape::Borrowed => {
            push_str(out, "(&'state mut ");
            push_ty(out, &v.ty);
            push_str(out, ")");
        },
        Shape::Handle => {
            push_str(out, "(");
            push_chars(out, &v.name);
            push_chars(out, &c.entry_args);
            push_str(out, ")");
        },
    }
    push_str(out, ",\n");
    proof {
        assert(out@ =~= start + entry_variant(c@, g.edges_m(), v@));
    }
}

pub open spec fn progress_line(c: CtxModel) -> Seq<char> {
    " Progress through variants of [`"@ + c.state + "`], created by its [`entry`]("@ + c.state
        + "::entry) method."@
}

/// The entry enum, with a diagram in its documentation where one is given.
pub open spec fn entry_enum(
    c: CtxModel,
    es: Seq<EdgeModel>,
    vs: Seq<VariantModel>,
    diagram: Option<Seq<char>>,
) -> Seq<char> {
    doc_attr(progress_line(c)) + match diagram {
        Some(d) => doc_attr(Seq::empty()) + doc_attr(d),
        None => Seq::empty(),
    } + c.entry_vis + " enum "@ + c.entry + c.entry_params + c.where_clause + " {\n"@ + concat(
        vs.map_values(|v: VariantModel| entry_variant(c, es, v)),
    ) + "}\n"@
}

#[verifier::rlimit(60)]
pub fn push_entry_enum(
    out: &mut Vec<char>,
    c: &Ctx,
    g: &Graph,
    vs: &Vec<VariantPlan>,
    diagram: &Option<Vec<char>>,
)
    requires
        forall|i: int| 0 <= i < vs@.len() ==> fits((#[trigger] vs@[i])@, g.edges@.len() as int),
    ensures
        final(out)@ == old(out)@ + entry_enum(
            c@,
            g.edges_m(),
            crate::plan::variant_models(vs@),
            crate::graph::opt(*diagram),
        ),
{
    let ghost start = out@;
    let mut first: Vec<char> = Vec::new();
    push_str(&mut first, " Progress through variants of [`");
    push_chars(&mut first, &c.state);
    push_str(&mut first, "`], created by its [`entry`](");
    push_chars(&mut first, &c.state);
    push_str(&mut first, "::entry) method.");
    proof {
        assert(first@ =~= progress_line(c@));
    }
    push_doc(out, &first);
    match diagram {
        Some(d) => {
            push_doc(out, &Vec::new());
            push_doc(out, d);
        },
        None => {},
    }
    push_chars(out, &c.entry_vis);
    push_str(out, " enum ");
    push_chars(out, &c.entry);
    push_chars(out, &c.entry_params);
    push_chars(out, &c.where_clause);
    push_str(out, " {\n");
    let ghost mid = out@;
    let ghost pieces = crate::plan::variant_models(vs@).map_values(
        |v: VariantModel| entry_variant(c@, g.edges_m(), v),
    );
    let mut i: usize = 0;
    while i < vs.len()
        invariant
            i <= vs@.len(),
            pieces == crate::plan::variant_models(vs@).map_values(
                |v: VariantModel| entry_variant(c@, g.edges_m(), v),
            ),
            forall|i: int| 0 <= i < vs@.len() ==> fits((#[trigger] vs@[i])@, g.edges@.len() as int),
            out@ == mid + concat(pieces.subrange(0, i as int)),
        decreases vs@.len() - i,
    {
        push_entry_variant(out, c, g, &vs[i]);
        proof {
            lemma_concat_step(pieces, i as int);
        }
        i = i + 1;
    }
    push_str(out, "}\n");
    proof {
        assert(pieces.subrange(0, vs@.len() as int) =~= pieces);
        assert(out@ =~= start + entry_enum(
            c@,
            g.edges_m(),
            crate::plan::variant_models(vs@),
            crate::graph::opt(*diagram),
        ));
    }
}

/// The match arm that builds the entry of one node.
pub open spec fn from_arm(c: CtxModel, v: VariantModel) -> Seq<char> {
    "            "@ + c.state + "::"@ + v.name + match v.shape {
        Shape::Bare => Seq::empty(),
        Shape::Borrowed => "(it)"@,
        Shape::Handle => if v.ty is Some {
            "(_)"@
        } else {
            Seq::empty()
        },
    } + " => "@ + c.entry + "::"@ + v.name + match v.shape {
        Shape::Bare => Seq::empty(),
        Shape::Borrowed => "(it)"@,
        Shape::Handle => "("@ + v.name + "(value))"@,
    } + ",\n"@
}

pub fn push_from_arm(out: &mut Vec<char>, c: &Ctx, v: &VariantPlan)
    ensures
        final(out)@ == old(out)@ + from_arm(c@, v@),
{
    let ghost start = out@;
    push_str(out, "            ");
    push_chars(out, &c.state);
    push_str(out, "::");
    push_chars(out, &v.name);
    match v.shape {
        Shape::Bare => {},
        Shape::Borrowed => push_str(out, "(it)"),
        Shape::Handle => if v.ty.is_some() {
            push_str(out, "(_)");
        },
    }
    push_str(out, " => ");
    push_chars(out, &c.entry);
    push_str(out, "::");
    push_chars(out, &v.name);
    match v.shape {
        Shape::Bare => {},
        Shape::Borrowed => push_str(out, "(it)"),
        Shape::Handle => {
            push_str(out, "(");
            push_chars(out, &v.name);
            push_str(out, "(value))");
        },
    }
    push_str(out, ",\n");
    proof {
        assert(out@ =~= start + from_arm(c@, v@));
    }
}

pub open spec fn from_head(c: CtxModel) -> Seq<char> {
    "impl"@ + c.entry_params + " "@ + c.core + "::convert::From<&'state mut "@ + c.state
        + c.state_args + "> for "@ + c.entry + c.entry_args + c.where_clause + " {\n"@
        + "    fn from(value: &'state mut "@ + c.state + c.state_args + ") -> Self {\n"@
        + "        match value {\n"@
}

/// The end of the conversion, and the `entry` method of the state enum.
pub open spec fn from_tail(c: CtxModel) -> Seq<char> {
    "        }\n    }\n}\n"@ + "impl"@ + c.state_params + " "@ + c.state + c.state_args
        + c.where_clause + " {\n    "@ + c.entry_vis + " fn entry<'state>(&'state mut self) -> "@
        + c.entry + c.entry_args + " {\n"@
        + "        self.into()\n    }\n}\n"@
}

/// The conversion from a borrowed machine to its entry, and the `entry` method.
pub open spec fn from_impl(c: CtxModel, vs: Seq<VariantModel>) -> Seq<char> {
    from_head(c) + concat(vs.map_values(|v: VariantModel| from_arm(c, v))) + from_tail(c)
}

fn push_from_head(out: &mut Vec<char>, c: &Ctx)
    ensures
        final(out)@ == old(out)@ + from_head(c@),
{
    let ghost start = out@;
    push_str(out, "impl");
    push_chars(out, &c.entry_params);
    push_str(out, " ");
    push_chars(out, &c.core);
    push_str(out, "::convert::From<&'state mut ");
    push_chars(out, &c.state);
    push_chars(out, &c.state_args);
    push_str(out, "> for ");
    push_chars(out, &c.entry);
    push_chars(out, &c.entry_args);
    push_chars(out, &c.where_clause);
    push_str(out, " {\n");
    push_str(out, "    fn from(value: &'state mut ");
    push_chars(out, &c.state);
    push_chars(out, &c.state_args);
    push_str(out, ") -> Self {\n");
    push_str(out, "        match value {\n");
    proof {
        assert(out@ =~= start + from_head(c@));
    }
}

fn push_from_tail(out: &mut Vec<char>, c: &Ctx)
    ensures
        final(out)@ == old(out)@ + from_tail(c@),
{
    let ghost start = out@;
    push_str(out, "        }\n    }\n}\n");
    push_str(out, "impl");
    push_chars(out, &c.state_params);
    push_str(out, " ");
    push_chars(out, &c.state);
    push_chars(out, &c.state_args);
    push_chars(out, &c.where_clause);
    push_str(out, " {\n    ");
    push_chars(out, &c.entry_vis);
    push_str(out, " fn entry<'state>(&'state mut self) -> ");
    push_chars(out, &c.entry);
    push_chars(out, &c.entry_args);
    push_str(out, " {\n");
    push_str(out, "        self.into()\n    }\n}\n");
    proof {
        assert(out@ =~= start + from_tail(c@));
    }
}

pub fn push_from_impl(out: &mut Vec<char>, c: &Ctx, vs: &Vec<VariantPlan>)
    ensures
        final(out)@ == old(out)@ + from_impl(c@, crate::plan::variant_models(vs@)),
{
    let ghost start = out@;
    push_from_head(out, c);
    let ghost mid = out@;
    let ghost pieces = crate::plan::variant_models(vs@).map_values(
        |v: VariantModel| from_arm(c@, v),
    );
    let mut i: usize = 0;
    while i < vs.len()
        invariant
            i <= vs@.len(),
            pieces == crate::plan::variant_models(vs@).map_values(
                |v: VariantModel| from_arm(c@, v),
            ),
            out@ == mid + concat(pieces.subrange(0, i as int)),
        decreases vs@.len() - i,
    {
        push_from_arm(out, c, &vs[i]);
        proof {
            lemma_concat_step(pieces, i as int);
        }
        i = i + 1;
    }
    push_from_tail(out, c);
    proof {
        assert(pieces.subrange(0, vs@.len() as int) =~= pieces);
        assert(out@ =~= start + from_impl(c@, crate::plan::variant_models(vs@)));
    }
}

/// One accessor of a handle's payload.
pub open spec fn accessor(c: CtxModel, v: VariantModel, name: Seq<char>, write: bool) -> Seq<char> {
    "    pub fn "@ + name + if write {
        "(&mut self) -> &mut "@
    } else {
        "(&self) -> &"@
    } + ty_text(v.ty) + " {\n        match "@ + if write {
        "&mut "@
    } else {
        "&"@
    } + "self.0 {\n            "@ + c.state + "::"@ + v.name + "(it) => it,\n            _ => "@
        + panic_text(c) + ",\n        }\n    }\n"@
}

pub fn push_accessor(out: &mut Vec<char>, c: &Ctx, v: &VariantPlan, name: &Vec<char>, write: bool)
    ensures
        final(out)@ == old(out)@ + accessor(c@, v@, name@, write),
{
    let ghost start = out@;
    push_str(out, "    pub fn ");
    push_chars(out, name);
    if write {
        push_str(out, "(&mut self) -> &mut ");
    } else {
        push_str(out, "(&self) -> &");
    }
    push_ty(out, &v.ty);
    push_str(out, " {\n        match ");
    if write {
        push_str(out, "&mut ");
    } else {
        push_str(out, "&");
    }
    push_str(out, "self.0 {\n            ");
    push_chars(out, &c.state);
    push_str(out, "::");
    push_chars(out, &v.name);
    push_str(out, "(it) => it,\n            _ => ");
    push_panic(out, c);
    push_str(out, ",\n        }\n    }\n");
    proof {
        assert(out@ =~= start + accessor(c@, v@, name@, write));
    }
}

/// The documentation of a transition method: the edge's own, then where it goes.
pub open spec fn method_docs(c: CtxModel, e: EdgeModel, m: MethodModel) -> Seq<char> {
    doc_attrs(e.doc) + if e.doc.len() > 0 {
        doc_attr(Seq::empty())
    } else {
        Seq::empty()
    } + doc_attr(" Transition to [`"@ + c.state + "::"@ + m.to + "`]"@)
}

pub open spec fn takes(m: MethodModel) -> bool {
    m.sig == Signature::Takes || m.sig == Signature::Swaps
}

pub open spec fn gives(m: MethodModel) -> bool {
    m.sig == Signature::Gives || m.sig == Signature::Swaps
}

/// The signature line of a transition method.
pub open spec fn method_head(ns: Seq<NodeModel>, v: VariantModel, m: MethodModel) -> Seq<char> {
    "    pub fn "@ + m.name + if takes(m) {
        "(self, next: "@ + ty_of(ns, m.to) + ")"@
    } else {
        "(self)"@
    } + if gives(m) {
        " -> "@ + ty_text(v.ty)
    } else {
        Seq::empty()
    }
}

/// The body of a transition method: install the destination, hand back the
/// payload of the source.
pub open spec fn method_body(c: CtxModel, v: VariantModel, m: MethodModel) -> Seq<char> {
    " {\n        match "@ + c.core + "::mem::replace(self.0, "@ + c.state + "::"@ + m.to + if takes(m) {
        "(next)"@
    } else {
        Seq::empty()
    } + ") {\n            "@ + c.state + "::"@ + v.name + if gives(m) {
        "(it) => it"@
    } else {
        " => {}"@
    } + ",\n            _ => "@ + panic_text(c) + ",\n        }\n    }\n"@
}

/// One transition method, in the shape that its signature asks for.
pub open spec fn method_text(
    c: CtxModel,
    ns: Seq<NodeModel>,
    es: Seq<EdgeModel>,
    v: VariantModel,
    m: MethodModel,
) -> Seq<char> {
    method_docs(c, es[m.edge], m) + method_head(ns, v, m) + method_body(c, v, m)
}

fn push_method_docs(out: &mut Vec<char>, c: &Ctx, e: &crate::graph::Edge, m: &MethodPlan)
    ensures
        final(out)@ == old(out)@ + method_docs(c@, e@, m@),
{
    let ghost start = out@;
    push_docs(out, &e.doc);
    if e.doc.len() > 0 {
        push_doc(out, &Vec::new());
    }
    let mut pointer: Vec<char> = Vec::new();
    push_str(&mut pointer, " Transition to [`");
    push_chars(&mut pointer, &c.state);
    push_str(&mut pointer, "::");
    push_chars(&mut pointer, &m.to);
    push_str(&mut pointer, "`]");
    push_doc(out, &pointer);
    proof {
        assert(out@ =~= start + method_docs(c@, e@, m@));
    }
}

fn push_method_head(out: &mut Vec<char>, g: &Graph, v: &VariantPlan, m: &MethodPlan)
    ensures
        final(out)@ == old(out)@ + method_head(g.nodes_m(), v@, m@),
{
    let ghost start = out@;
    let takes = m.sig == Signature::Takes || m.sig == Signature::Swaps;
    let gives = m.sig == Signature::Gives || m.sig == Signature::Swaps;
    push_str(out, "    pub fn ");
    push_chars(out, &m.name);
    if takes {
        push_str(out, "(self, next: ");
        push_ty_of(out, g, &m.to);
        push_str(out, ")");
    } else {
        push_str(out, "(self)");
    }
    if gives {
        push_str(out, " -> ");
        push_ty(out, &v.ty);
    }
    proof {
        assert(out@ =~= start + method_head(g.nodes_m(), v@, m@));
    }
}

fn push_method_body(out: &mut Vec<char>, c: &Ctx, v: &VariantPlan, m: &MethodPlan)
    ensures
        final(out)@ == old(out)@ + method_body(c@, v@, m@),
{
    let ghost start = out@;
    let takes = m.sig == Signature::Takes || m.sig == Signature::Swaps;
    let gives = m.sig == Signature::Gives || m.sig == Signature::Swaps;
    push_str(out, " {\n        match ");
    push_chars(out, &c.core);
    push_str(out, "::mem::replace(self.0, ");
    push_chars(out, &c.state);
    push_str(out, "::");
    push_chars(out, &m.to);
    if takes {
        push_str(out, "(next)");
    }
    push_str(out, ") {\n            ");
    push_chars(out, &c.state);
    push_str(out, "::");
    push_chars(out, &v.name);
    if gives {
        push_str(out, "(it) => it");
    } else {
        push_str(out, " => {}");
    }
    push_str(out, ",\n            _ => ");
    push_panic(out, c);
    push_str(out, ",\n        }\n    }\n");
    proof {
        assert(out@ =~= start + method_body(c@, v@, m@));
    }
}

pub fn push_method(out: &mut Vec<char>, c: &Ctx, g: &Graph, v: &VariantPlan, k: usize)
    requires
        k < v.methods@.len(),
        fits(v@, g.edges@.len() as int),
    ensures
        final(out)@ == old(out)@ + method_text(c@, g.nodes_m(), g.edges_m(), v@, v@.methods[k as int]),
{
    let ghost start = out@;
    let m = &v.methods[k];
    assert(v@.methods[k as int] == m@);
    let e = &g.edges[m.edge];
    push_method_docs(out, c, e, m);
    push_method_head(out, g, v, m);
    push_method_body(out, c, v, m);
    proof {
        assert(out@ =~= start + method_text(c@, g.nodes_m(), g.edges_m(), v@, m@));
    }
}

/// The struct of a handle and the start of its impl block.
pub open spec fn handle_head(c: CtxModel, v: VariantModel) -> Seq<char> {
    doc_attr(" See [`"@ + c.entry + "::"@ + v.name + "`]"@) + c.entry_vis + " struct "@ + v.name
        + c.entry_params + "(&'state mut "@ + c.state + c.state_args + ")"@ + c.where_clause
        + ";\n"@ + "impl"@ + c.entry_params + " "@ + v.name + c.entry_args + c.where_clause
        + " {\n"@
}

pub open spec fn accessors_text(c: CtxModel, v: VariantModel) -> Seq<char> {
    match v.accessors {
        Some((r, w)) => accessor(c, v, r, false) + accessor(c, v, w, true),
        None => Seq::empty(),
    }
}

/// The handle of a node with transitions: its struct, accessors and methods.
/// Nodes without transitions get none.
pub open spec fn handle_items(
    c: CtxModel,
    ns: Seq<NodeModel>,
    es: Seq<EdgeModel>,
    v: VariantModel,
) -> Seq<char> {
    if v.shape == Shape::Handle {
        handle_head(c, v) + accessors_text(c, v) + concat(
            v.methods.map_values(|m: MethodModel| method_text(c, ns, es, v, m)),
        ) + "}\n"@
    } else {
        Seq::empty()
    }
}

fn push_handle_head(out: &mut Vec<char>, c: &Ctx, v: &VariantPlan)
    ensures
        final(out)@ == old(out)@ + handle_head(c@, v@) + accessors_text(c@, v@),
{
    let ghost start = out@;
    let mut see: Vec<char> = Vec::new();
    push_str(&mut see, " See [`");
    push_chars(&mut see, &c.entry);
    push_str(&mut see, "::");
    push_chars(&mut see, &v.name);
    push_str(&mut see, "`]");
    push_doc(out, &see);
    push_chars(out, &c.entry_vis);
    push_str(out, " struct ");
    push_chars(out, &v.name);
    push_chars(out, &c.entry_params);
    push_str(out, "(&'state mut ");
    push_chars(out, &c.state);
    push_chars(out, &c.state_args);
    push_str(out, ")");
    push_chars(out, &c.where_clause);
    push_str(out, ";\n");
    push_str(out, "impl");
    push_chars(out, &c.entry_params);
    push_str(out, " ");
    push_chars(out, &v.name);
    push_chars(out, &c.entry_args);
    push_chars(out, &c.where_clause);
    push_str(out, " {\n");
    proof {
        assert(out@ =~= start + handle_head(c@, v@));
    }
    let ghost mid = out@;
    match &v.accessors {
        Some((r, w)) => {
            push_accessor(out, c, v, r, false);
            push_accessor(out, c, v, w, true);
        },
        None => {},
    }
    proof {
        assert(out@ =~= mid + accessors_text(c@, v@));
    }
}

pub fn push_handle_items(out: &mut Vec<char>, c: &Ctx, g: &Graph, v: &VariantPlan)
    requires
        fits(v@, g.edges@.len() as int),
    ensures
        final(out)@ == old(out)@ + handle_items(c@, g.nodes_m(), g.edges_m(), v@),
{
    let ghost start = out@;
    if v.shape != Shape::Handle {
        proof {
            assert(out@ =~= start + handle_items(c@, g.nodes_m(), g.edges_m(), v@));
        }
        return;
    }
    push_handle_head(out, c, v);
    let ghost mid = out@;
    let ghost pieces = v@.methods.map_values(
        |m: MethodModel| method_text(c@, g.nodes_m(), g.edges_m(), v@, m),
    );
    let mut k: usize = 0;
    while k < v.methods.len()
        invariant
            k <= v.methods@.len(),
            fits(v@, g.edges@.len() as int),
            pieces == v@.methods.map_values(
                |m: MethodModel| method_text(c@, g.nodes_m(), g.edges_m(), v@, m),
            ),
            out@ == mid + concat(pieces.subrange(0, k as int)),
        decreases v.methods@.len() - k,
    {
        push_method(out, c, g, v, k);
        proof {
            lemma_concat_step(pieces, k as int);
        }
        k = k + 1;
    }
    push_str(out, "}\n");
    proof {
        assert(pieces.subrange(0, v.methods@.len() as int) =~= pieces);
        assert(out@ =~= start + handle_items(c@, g.nodes_m(), g.edges_m(), v@));
    }
}

/// The whole generated source: the state enum, the entry enum, the
/// conversion between them, and the handles.
pub open spec fn source_text(
    c: CtxModel,
    ns: Seq<NodeModel>,
    es: Seq<EdgeModel>,
    vs: Seq<VariantModel>,
    diagram: Option<Seq<char>>,
) -> Seq<char> {
    state_enum(c, ns) + entry_enum(c, es, vs, diagram) + from_impl(c, vs) + concat(
        vs.map_values(|v: VariantModel| handle_items(c, ns, es, v)),
    )
}

/// Write the source of a planned machine.
pub fn render(c: &Ctx, g: &Graph, vs: &Vec<VariantPlan>, diagram: &Option<Vec<char>>) -> (r: Vec<
    char,
>)
    requires
        forall|i: int| 0 <= i < vs@.len() ==> fits((#[trigger] vs@[i])@, g.edges@.len() as int),
    ensures
        r@ == source_text(
            c@,
            g.nodes_m(),
            g.edges_m(),
            crate::plan::variant_models(vs@),
            crate::graph::opt(*diagram),
        ),
{
    let mut out: Vec<char> = Vec::new();
    push_state_enum(&mut out, c, g);
    push_entry_enum(&mut out, c, g, vs, diagram);
    push_from_impl(&mut out, c, vs);
    let ghost mid = out@;
    let ghost pieces = crate::plan::variant_models(vs@).map_values(
        |v: VariantModel| handle_items(c@, g.nodes_m(), g.edges_m(), v),
    );
    let mut i: usize = 0;
    while i < vs.len()
        invariant
            i <= vs@.len(),
            forall|i: int| 0 <= i < vs@.len() ==> fits((#[trigger] vs@[i])@, g.edges@.len() as int),
            pieces == crate::plan::variant_models(vs@).map_values(
                |v: VariantModel| handle_items(c@, g.nodes_m(), g.edges_m(), v),
            ),
            out@ == mid + concat(pieces.subrange(0, i as int)),
        decreases vs@.len() - i,
    {
        push_handle_items(&mut out, c, g, &vs[i]);
        proof {
            lemma_concat_step(pieces, i as int);
        }
        i = i + 1;
    }
    proof {
        assert(pieces.subrange(0, vs@.len() as int) =~= pieces);
        assert(out@ =~= source_text(
            c@,
            g.nodes_m(),
            g.edges_m(),
            crate::plan::variant_models(vs@),
            crate::graph::opt(*diagram),
        ));
    }
    out
}

/// Every edge index that the plan of a graph holds is an index into its edges.
pub proof fn lemma_plan_fits(ns: Seq<NodeModel>, es: Seq<EdgeModel>)
    ensures
        forall|i: int|
            0 <= i < ns.len() ==> fits(#[trigger] crate::plan::plan_spec(ns, es)[i], es.len() as int),
{
    assert forall|i: int| 0 <= i < ns.len() implies fits(
        #[trigger] crate::plan::plan_spec(ns, es)[i],
        es.len() as int,
    ) by {
        crate::topology::lemma_out_indices(es, ns[i].name);
        crate::topology::lemma_in_indices(es, ns[i].name);
    }
}

} // verus!
