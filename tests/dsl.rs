use fsmentry::machine::FsmEntry;
use fsmentry::names::{escape, method_name_for, snake_case};
use fsmentry::syntax;
use fsmentry::syntax::{parse_machine, Arrow, Stmt};
use fsmentry::ErrorKind;

fn cs(s: &str) -> Vec<char> {
    s.chars().collect()
}

fn st(v: &[char]) -> String {
    v.iter().collect()
}

#[test]
fn state_enum() {
    let m = parse_machine(
        "/// doc
        #[derive(Debug)]
        #[fsmentry(entry = pub(crate) MyEntry, unsafe(true))]
        pub enum State<'a, T>
        where
            T: Ord
        {
            PopulatedIsland: String;
            DesertIsland;

            Fountain: &'a mut T;
            Fountain
                /// Go over the water
                -fountain2bridge-> BeautifulBridge -bridge2tombstone-> Tombstone;
            BeautifulBridge: Vec<u8>;
            Tombstone: char;
            /// This fountain is so pretty!
            Fountain -> Plank -> UnmarkedGrave;

            Stream -> BeautifulBridge;
            Stream -> Plank;
        }",
    );
    let m = match m {
        Ok(m) => m,
        Err(e) => panic!("{:?}", e),
    };
    assert_eq!(st(&m.name), "State");
    assert_eq!(st(&m.vis), "pub");
    assert_eq!(st(&m.generics), "<'a, T>");
    assert_eq!(st(m.where_clause.trim_ascii_end_chars()), "where\n            T: Ord");
    assert_eq!(m.attrs.iter().map(|a| st(a)).collect::<Vec<_>>(), vec!["derive(Debug)"]);
    assert_eq!(m.options.trust, fsmentry::config::Trust::Trusted);
    assert_eq!(m.stmts.len(), 9);
    let f = fsmentry::FsmEntry::from_machine(m).ok().unwrap();
    let code = f.codegen(&());
    assert!(code.contains("#[derive(Debug)]\npub enum State"), "{}", code);
    assert!(code.contains("pub(crate) enum MyEntry"), "{}", code);
    assert!(syn::parse_file(&code).is_ok(), "{}", code);
}

trait TrimChars {
    fn trim_ascii_end_chars(&self) -> &[char];
}

impl TrimChars for Vec<char> {
    fn trim_ascii_end_chars(&self) -> &[char] {
        let mut n = self.len();
        while n > 0 && self[n - 1].is_whitespace() {
            n -= 1;
        }
        &self[..n]
    }
}

#[test]
fn parse_dsl() {
    let m = parse_machine(
        "M {
            /// a node description
            Foo: String;
            /// an edge
            Foo --> Bar;
            /// many edges
            Foo --> Bar -> Baz;
            /// another edge
            Foo -\"with inline docs\"-> Bar;
            Foo -\"and\"-> Bar -\"a\"-> Few;
        }",
    )
    .ok()
    .unwrap();
    assert_eq!(m.stmts.len(), 5);
    match &m.stmts[0] {
        Stmt::Node(n) => {
            assert_eq!(st(&n.name), "Foo");
            assert_eq!(n.ty.as_ref().map(|t| st(t)), Some("String".to_string()));
            assert_eq!(n.doc.iter().map(|l| st(l)).collect::<Vec<_>>(), vec![" a node description"]);
        }
        Stmt::Chain(_) => panic!("expected a node"),
    }
    match &m.stmts[4] {
        Stmt::Chain(c) => {
            assert_eq!(st(&c.first), "Foo");
            assert_eq!(c.steps.len(), 2);
            assert!(matches!(&c.steps[0].arrow, Arrow::Documented(t) if st(t) == "and"));
            assert!(matches!(&c.steps[1].arrow, Arrow::Documented(t) if st(t) == "a"));
            assert_eq!(st(&c.steps[1].to), "Few");
        }
        Stmt::Node(_) => panic!("expected a chain"),
    }
}

fn arrow(s: &str) -> Arrow {
    match syntax::parse_arrow(&cs(s), 0) {
        Ok(Some((a, end))) => {
            assert_eq!(end, s.chars().count());
            a
        }
        _ => panic!("not an arrow: {}", s),
    }
}

#[test]
fn parse_arrow() {
    assert!(matches!(arrow("->"), Arrow::Plain));
    assert!(matches!(arrow("-->"), Arrow::Plain));
    assert!(matches!(arrow("-\"hello\"->"), Arrow::Documented(t) if st(&t) == "hello"));
    assert!(matches!(arrow("--\"ehlo\"->"), Arrow::Documented(t) if st(&t) == "ehlo"));
    assert!(matches!(arrow("-\"ehlo\"-->"), Arrow::Documented(t) if st(&t) == "ehlo"));
    assert!(matches!(arrow("--\"elo\"-->"), Arrow::Documented(t) if st(&t) == "elo"));
    assert!(matches!(arrow("-go->"), Arrow::Named(n) if st(&n) == "go"));
}

#[test]
fn no_arrow_is_none() {
    assert!(matches!(syntax::parse_arrow(&cs(";"), 0), Ok(None)));
}

#[test]
fn snake_case_of_names() {
    assert_eq!(st(&snake_case(&cs("BeautifulBridge"))), "beautiful_bridge");
    assert_eq!(st(&snake_case(&cs("A"))), "a");
    assert_eq!(st(&snake_case(&cs("HTTPServer"))), "h_t_t_p_server");
    assert_eq!(st(&snake_case(&cs(""))), "");
}

#[test]
fn escaping_uses_raw_identifiers() {
    assert_eq!(escape(&cs("type")).map(|v| st(&v)), Some("r#type".to_string()));
    assert_eq!(escape(&cs("fork")).map(|v| st(&v)), Some("fork".to_string()));
    assert_eq!(method_name_for(&cs("Crate"), true).map(|v| st(&v)), Some("crate_".to_string()));
    assert_eq!(escape(&cs("self")).map(|v| st(&v)), Some("self_".to_string()));
    assert_eq!(method_name_for(&cs("Type"), false).map(|v| st(&v)), Some("Type".to_string()));
}

#[test]
fn payload_types_are_canonical() {
    let m = parse_machine("M { A: Vec<u8>; B: [u8; 4]; A -> B; }").ok().unwrap();
    let ty = |i: usize| match &m.stmts[i] {
        Stmt::Node(n) => n.ty.as_ref().map(|t| st(t)),
        Stmt::Chain(_) => None,
    };
    assert_eq!(ty(0), Some("Vec < u8 >".to_string()));
    assert_eq!(ty(1), Some("[u8 ; 4]".to_string()));
}

#[test]
fn options_are_read() {
    let m = parse_machine(
        "#[fsmentry(rename_methods = false, entry = pub(crate) MyEntry)]\n#[fsmentry(unsafe(true), path_to_core = ::core, mermaid = true)]\npub M { A -> B; }",
    )
    .ok()
    .unwrap();
    assert!(!m.options.rename_methods);
    assert!(m.options.mermaid);
    assert_eq!(m.options.trust, fsmentry::config::Trust::Trusted);
    let (vis, name) = m.options.entry.clone().unwrap();
    assert_eq!((st(&vis), st(&name)), ("pub(crate)".to_string(), "MyEntry".to_string()));
    let f = FsmEntry::from_machine(m).ok().unwrap();
    let code = f.codegen(&());
    assert!(code.contains("pub(crate) enum MyEntry<'state> {"));
    assert!(code.contains("unsafe { ::core::hint::unreachable_unchecked() }"));
}

fn kind_of_failure(text: &str) -> ErrorKind {
    FsmEntry::parse(text).err().unwrap().kind
}

#[test]
fn every_error_kind_has_an_input() {
    assert_eq!(kind_of_failure("M { A -> ; }"), ErrorKind::Syntax);
    assert_eq!(kind_of_failure("M { A: ); }"), ErrorKind::Syntax);
    assert_eq!(kind_of_failure("M { A: 1 + ; A -> B; }"), ErrorKind::InvalidType);
    assert_eq!(kind_of_failure("M { Self -> B; }"), ErrorKind::InvalidName);
    assert_eq!(kind_of_failure("#[fsmentry(colour = true)] M { A -> B; }"), ErrorKind::UnknownOption);
    assert_eq!(kind_of_failure("#[fsmentry(mermaid = true)] #[fsmentry(mermaid = false)] M { A -> B; }"), ErrorKind::DuplicateOption);
    assert_eq!(kind_of_failure("#[fsmentry(mermaid = maybe)] M { A -> B; }"), ErrorKind::InvalidOption);
    assert_eq!(kind_of_failure("M { A: u8; A: u16; A -> B; }"), ErrorKind::IncompatibleRedefinition);
    assert_eq!(kind_of_failure("M { A -> B; A -> B; }"), ErrorKind::DuplicateEdge);
    assert_eq!(kind_of_failure("M { A -> B_c; A -> BC; }"), ErrorKind::DuplicateMethod);
    assert_eq!(kind_of_failure("M { A -> B; A -b_-> C; A -> B_; }"), ErrorKind::DuplicateMethod);
    assert_eq!(kind_of_failure("M<T { A -> B; }"), ErrorKind::Syntax);
    assert_eq!(kind_of_failure("M<T + > { A -> B; }"), ErrorKind::InvalidGenerics);
    assert_eq!(kind_of_failure("#[= x] M { A -> B; }"), ErrorKind::InvalidAttribute);
    assert_eq!(kind_of_failure("M<T> where T { A -> B; }"), ErrorKind::InvalidWhere);
    assert_eq!(kind_of_failure("M { A; B; }"), ErrorKind::NoEdges);
}

#[test]
fn error_positions_point_at_the_cause() {
    let e = FsmEntry::parse("M { A -> B; A -> B; }").err().unwrap();
    assert_eq!(e.pos, 14);
    let e = FsmEntry::parse("M { A: u8; A: u16; A -> B; }").err().unwrap();
    assert_eq!(e.pos, 11);
    let e = FsmEntry::parse("pub enum Road { A; }").err().unwrap();
    assert_eq!((e.kind, e.pos), (ErrorKind::NoEdges, 9));
    let e = FsmEntry::parse("M {\n  A -> ;\n}").err().unwrap();
    assert_eq!(fsmentry::error::line_and_column("M {\n  A -> ;\n}", e.pos), (2, 8));
}
