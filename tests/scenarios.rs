use fsmentry::graph::Graph;
use fsmentry::machine::FsmEntry;
use fsmentry::plan::{plan, Shape, Signature};
use fsmentry::topology::Kind;
use fsmentry::ErrorKind;

fn cs(s: &str) -> Vec<char> {
    s.chars().collect()
}

fn st(v: &[char]) -> String {
    v.iter().collect()
}

fn node_index(g: &Graph, name: &str) -> usize {
    g.nodes.iter().position(|n| n.name == cs(name)).expect("node exists")
}

fn methods_of(g: &Graph, name: &str) -> Vec<String> {
    let vs = plan(g);
    let v = &vs[node_index(g, name)];
    v.methods.iter().map(|m| st(&m.name)).collect()
}

#[test]
fn road_classification_and_methods() {
    let f = FsmEntry::parse("enum Road { Start -> Fork -> End; Fork -> Start; }").unwrap();
    let g = &f.graph;
    assert_eq!(g.kind(&cs("Start")), Kind::NonTerminal);
    assert_eq!(g.kind(&cs("Fork")), Kind::NonTerminal);
    assert_eq!(g.kind(&cs("End")), Kind::Sink);
    let mut fork = methods_of(g, "Fork");
    fork.sort();
    assert_eq!(fork, vec!["end".to_string(), "start".to_string()]);
    assert_eq!(methods_of(g, "Start"), vec!["fork".to_string()]);
    assert_eq!(methods_of(g, "End"), Vec::<String>::new());
}

#[test]
fn single_node_without_edges_fails() {
    let e = FsmEntry::parse("Lonely { Only; }").err().unwrap();
    assert_eq!(e.kind, ErrorKind::NoEdges);
    assert_eq!(e.message(), "must define at least one edge `A -> B`");
}

#[test]
fn typed_declaration_merges_with_reference() {
    let f = FsmEntry::parse("M { Foo: String; Foo -> Bar; }").unwrap();
    let g = &f.graph;
    let foo = &g.nodes[node_index(g, "Foo")];
    assert_eq!(foo.ty.as_ref().map(|t| st(t)), Some("String".to_string()));
    let bar = &g.nodes[node_index(g, "Bar")];
    assert_eq!(bar.ty, None);
    let code = f.codegen(&());
    assert!(code.contains("Foo(String),\n"));
    assert!(code.contains("pub fn bar(self) -> String"));
}

#[test]
fn conflicting_payload_types_fail() {
    let e = FsmEntry::parse("M { Foo: String; Foo: Vec<u8>; Foo -> Bar; }").err().unwrap();
    assert_eq!(e.kind, ErrorKind::IncompatibleRedefinition);
    assert_eq!(e.message(), "incompatible redefinition");
}

#[test]
fn same_payload_type_twice_merges() {
    let f = FsmEntry::parse("M { Foo: Vec<u8>; Foo: Vec < u8 >; Foo -> Bar; }").unwrap();
    let foo = &f.graph.nodes[node_index(&f.graph, "Foo")];
    assert_eq!(foo.ty.as_ref().map(|t| st(t)), Some("Vec < u8 >".to_string()));
}

#[test]
fn duplicate_edge_fails_whatever_the_arrow() {
    let e = FsmEntry::parse("M { A -\"note\"-> B; A -> B; }").err().unwrap();
    assert_eq!(e.kind, ErrorKind::DuplicateEdge);
    let e = FsmEntry::parse("M { A --> B; A -go-> B; }").err().unwrap();
    assert_eq!(e.kind, ErrorKind::DuplicateEdge);
}

#[test]
fn explicit_name_colliding_with_derived_name_fails() {
    let e = FsmEntry::parse("M { A -b-> C; A -> B; }").err().unwrap();
    assert_eq!(e.kind, ErrorKind::DuplicateMethod);
}

#[test]
fn keyword_method_names_are_escaped() {
    let f = FsmEntry::parse("M { A -> Type; A -> Loop; }").unwrap();
    let mut names = methods_of(&f.graph, "A");
    names.sort();
    assert_eq!(names, vec!["r#loop".to_string(), "r#type".to_string()]);
    let code = f.codegen(&());
    assert!(code.contains("pub fn r#type(self)"));
}

#[test]
fn renamed_methods_are_snake_case() {
    let f = FsmEntry::parse("M { Fountain -> BeautifulBridge; }").unwrap();
    assert_eq!(methods_of(&f.graph, "Fountain"), vec!["beautiful_bridge".to_string()]);
    let f = FsmEntry::parse("#[fsmentry(rename_methods = false)] M { Fountain -> BeautifulBridge; }").unwrap();
    assert_eq!(methods_of(&f.graph, "Fountain"), vec!["BeautifulBridge".to_string()]);
}

#[test]
fn generation_is_deterministic() {
    let text = "/// docs\npub M { /// a\n A: u8 -> B -> C: char; B -> A; D; }";
    let a = FsmEntry::parse(text);
    assert!(a.is_err());
    let text = "/// docs\npub M { /// a\n A: u8; C: char; A -> B -> C; B -> A; D; }";
    let a = FsmEntry::parse(text).unwrap().codegen(&());
    let b = FsmEntry::parse(text).unwrap().codegen(&());
    assert_eq!(a, b);
}

#[test]
fn entry_shapes_follow_the_table() {
    let f = FsmEntry::parse("M { Iso; IsoData: u8; SinkData: char; Src -> Mid -> Snk; Src -> SinkData; }").unwrap();
    let vs = plan(&f.graph);
    let shape = |n: &str| vs[node_index(&f.graph, n)].shape;
    assert_eq!(shape("Iso"), Shape::Bare);
    assert_eq!(shape("IsoData"), Shape::Borrowed);
    assert_eq!(shape("SinkData"), Shape::Borrowed);
    assert_eq!(shape("Snk"), Shape::Bare);
    assert_eq!(shape("Src"), Shape::Handle);
    assert_eq!(shape("Mid"), Shape::Handle);
    let code = f.codegen(&());
    assert!(code.contains("Iso,\n"));
    assert!(code.contains("IsoData(&'state mut u8),\n"));
    assert!(code.contains("Src(Src<'state>),\n"));
}

#[test]
fn signatures_follow_payloads() {
    let f = FsmEntry::parse("M { A: u8; D: char; A -> B; B -> D; D -> A; A -> D; }").unwrap();
    let vs = plan(&f.graph);
    let sig = |from: &str, m: &str| {
        let v = &vs[node_index(&f.graph, from)];
        v.methods.iter().find(|x| st(&x.name) == m).unwrap().sig
    };
    assert_eq!(sig("A", "b"), Signature::Gives);
    assert_eq!(sig("B", "d"), Signature::Takes);
    assert_eq!(sig("D", "a"), Signature::Swaps);
    assert_eq!(sig("A", "d"), Signature::Swaps);
    let f = FsmEntry::parse("M { X -> Y; }").unwrap();
    let vs = plan(&f.graph);
    assert_eq!(vs[node_index(&f.graph, "X")].methods[0].sig, Signature::Plain);
    let code = f.codegen(&());
    assert!(code.contains("pub fn y(self) {"));
}

#[test]
fn accessors_avoid_method_names() {
    let f = FsmEntry::parse("M { A: u8; A -> B; }").unwrap();
    let vs = plan(&f.graph);
    let (r, w) = vs[node_index(&f.graph, "A")].accessors.clone().unwrap();
    assert_eq!((st(&r), st(&w)), ("get".to_string(), "get_mut".to_string()));
    let f = FsmEntry::parse("M { A: u8; A -> Get; }").unwrap();
    let vs = plan(&f.graph);
    let (r, w) = vs[node_index(&f.graph, "A")].accessors.clone().unwrap();
    assert_eq!((st(&r), st(&w)), ("get___".to_string(), "get_mut___".to_string()));
}

#[test]
fn documented_example_is_accepted() {
    let text = "/// A traffic light
#[fsmentry(entry = pub(crate) LightEntry, unsafe = false)]
pub enum Light {
    Red;                 // a state
    Green: String;       // a state that carries data
    /// Cars speed up
    Red -> RedAmber -> Green;
    Green -> Amber -\"make sure you stop!\"-> Red;
    Red -skip-> Green;   // a transition method with its own name
}";
    let f = FsmEntry::parse(text).unwrap();
    let mut red = methods_of(&f.graph, "Red");
    red.sort();
    assert_eq!(red, vec!["red_amber".to_string(), "skip".to_string()]);
    assert_eq!(f.graph.kind(&cs("Green")), Kind::NonTerminal);
    assert!(syn::parse_file(&f.codegen(&())).is_ok());
}

#[test]
fn nodes_and_edges_come_out_sorted() {
    let f = FsmEntry::parse("enum Road { Start -> Fork -> End; Fork -> Start; A -> C; A -> B; }").unwrap();
    let names: Vec<String> = f.graph.nodes.iter().map(|n| st(&n.name)).collect();
    assert_eq!(names, vec!["A", "B", "C", "End", "Fork", "Start"]);
    let out: Vec<String> = f.graph.outgoing(&cs("A")).iter().map(|&e| st(&f.graph.edges[e].to)).collect();
    assert_eq!(out, vec!["B", "C"]);
    let inc: Vec<String> = f.graph.incoming(&cs("Fork")).iter().map(|&e| st(&f.graph.edges[e].from)).collect();
    assert_eq!(inc, vec!["Start"]);
    assert_eq!(methods_of(&f.graph, "Fork"), vec!["end".to_string(), "start".to_string()]);
}

#[test]
fn reserved_names_are_disambiguated() {
    let f = FsmEntry::parse("M { A -> Crate; A -> Super; A -> Type; }").unwrap();
    assert_eq!(
        methods_of(&f.graph, "A"),
        vec!["crate_".to_string(), "super_".to_string(), "r#type".to_string()]
    );
    assert!(syn::parse_file(&f.codegen(&())).is_ok());
}
