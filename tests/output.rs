use fsmentry::machine::{mermaid_block, FsmEntry, Mermaid, Renderer};

#[test]
fn dot_and_mermaid_drawings() {
    let f = FsmEntry::parse("Road { Lone; Start -> Fork -> End; Fork -> Start; }").unwrap();
    assert_eq!(
        f.dot(),
        "digraph Road{\n  Fork -> End;\n  Fork -> Start;\n  Start -> Fork;\n  Lone;\n}\n"
    );
    assert_eq!(
        f.mermaid(),
        "graph LR\n  Fork --> End;\n  Fork --> Start;\n  Start --> Fork;\n  Lone;\n"
    );
}

#[test]
fn generated_source_for_a_small_machine() {
    let f = FsmEntry::parse("/// A light\npub Light { On: u8; On -> Off -> On; }").unwrap();
    let expected = "#[doc = \" A light\"]
pub enum Light {
Off,
On(u8),
}
#[doc = \" Progress through variants of [`Light`], created by its [`entry`](Light::entry) method.\"]
pub enum LightEntry<'state> {
#[doc = \" Represents [`Light::Off`]\"]
#[doc = \"\"]
#[doc = \" This state is reachable from the following:\"]
#[doc = \" - [`On`](Light::On) via [`off`](On::off)\"]
#[doc = \"\"]
#[doc = \" This state can transition to the following:\"]
#[doc = \" - [`On`](Light::On) via [`on`](Off::on)\"]
Off(Off<'state>),
#[doc = \" Represents [`Light::On`]\"]
#[doc = \"\"]
#[doc = \" This state is reachable from the following:\"]
#[doc = \" - [`Off`](Light::Off) via [`on`](Off::on)\"]
#[doc = \"\"]
#[doc = \" This state can transition to the following:\"]
#[doc = \" - [`Off`](Light::Off) via [`off`](On::off)\"]
On(On<'state>),
}
impl<'state> ::core::convert::From<&'state mut Light> for LightEntry<'state> {
    fn from(value: &'state mut Light) -> Self {
        match value {
            Light::Off => LightEntry::Off(Off(value)),
            Light::On(_) => LightEntry::On(On(value)),
        }
    }
}
impl Light {
    pub fn entry<'state>(&'state mut self) -> LightEntry<'state> {
        self.into()
    }
}
#[doc = \" See [`LightEntry::Off`]\"]
pub struct Off<'state>(&'state mut Light);
impl<'state> Off<'state> {
#[doc = \" Transition to [`Light::On`]\"]
    pub fn on(self, next: u8) {
        match ::core::mem::replace(self.0, Light::On(next)) {
            Light::Off => {},
            _ => ::core::panic!(\"entry struct was instantiated with a mismatched state\"),
        }
    }
}
#[doc = \" See [`LightEntry::On`]\"]
pub struct On<'state>(&'state mut Light);
impl<'state> On<'state> {
    pub fn get(&self) -> &u8 {
        match &self.0 {
            Light::On(it) => it,
            _ => ::core::panic!(\"entry struct was instantiated with a mismatched state\"),
        }
    }
    pub fn get_mut(&mut self) -> &mut u8 {
        match &mut self.0 {
            Light::On(it) => it,
            _ => ::core::panic!(\"entry struct was instantiated with a mismatched state\"),
        }
    }
#[doc = \" Transition to [`Light::Off`]\"]
    pub fn off(self) -> u8 {
        match ::core::mem::replace(self.0, Light::Off) {
            Light::On(it) => it,
            _ => ::core::panic!(\"entry struct was instantiated with a mismatched state\"),
        }
    }
}
";
    assert_eq!(f.codegen(&()), expected);
}

#[test]
fn documented_arrows_and_escaping() {
    let f = FsmEntry::parse("M { /// shared\n A -\"say \\\"hi\\\"\"-> B; }").unwrap();
    let code = f.codegen(&());
    assert!(code.contains("#[doc = \" shared\"]\n#[doc = \"\"]\n#[doc = \"say \\\"hi\\\"\"]\n#[doc = \"\"]\n#[doc = \" Transition to [`M::B`]\"]\n"));
}

#[test]
fn mermaid_renderer_embeds_the_diagram() {
    let m = Mermaid::new();
    assert_eq!(m.0, "https://cdn.jsdelivr.net/npm/mermaid@11/dist/mermaid.esm.min.mjs");
    let out = m.render("graph LR\n  A --> B;\n").unwrap();
    assert!(out.starts_with("<pre class=\"mermaid\">\ngraph LR\n  A --> B;\n\n</pre>"));
    assert!(out.contains("import mermaid from \"https://cdn.jsdelivr.net/npm/mermaid@11/dist/mermaid.esm.min.mjs\";"));
    let block: String = mermaid_block("x", "u").iter().collect();
    assert!(block.starts_with("<pre class=\"mermaid\">\nx\n</pre>"));
    assert_eq!(().render("x"), None);
    assert_eq!(None::<Mermaid>.render("x"), None);
}

#[test]
fn diagram_goes_into_entry_docs_only_when_asked() {
    let f = FsmEntry::parse("#[fsmentry(mermaid = true)] M { A -> B; }").unwrap();
    let with = f.codegen(&Mermaid::new());
    assert!(with.contains("#[doc = \"<pre class=\\\"mermaid\\\">\\ngraph LR\\n  A --> B;\\n\\n</pre>"));
    let f = FsmEntry::parse("M { A -> B; }").unwrap();
    let without = f.codegen(&Mermaid::new());
    assert!(!without.contains("mermaid"));
}

#[test]
fn generated_source_is_rust() {
    let f = FsmEntry::parse(
        "/// Every shape
        #[fsmentry(entry = pub(crate) Handle, unsafe = true)]
        pub enum Shapes {
            Island: String;
            Desert;
            Fountain: Vec<u8>;
            Tomb: char;
            /// spring
            Fountain -to_bridge-> Bridge -> Tomb;
            Stream -> Bridge;
            Stream -\"long\"-> Fountain -> Get;
            Bridge: [u8; 4];
        }",
    )
    .unwrap();
    let code = f.codegen(&());
    assert!(syn::parse_file(&code).is_ok(), "{}", code);
    let checked = FsmEntry::parse("M { A: u8 -> B; }");
    assert!(checked.is_err());
}

#[test]
fn custom_core_path_and_defaults() {
    let f = FsmEntry::parse("#[fsmentry(path_to_core = my_core::inner)] M { A: u8 -> B; A -> B; }");
    assert!(f.is_err());
    let f = FsmEntry::parse("#[fsmentry(path_to_core = my_core::inner)] M { A: u8; A -> B; }").unwrap();
    let code = f.codegen(&());
    assert!(code.contains("impl<'state> my_core::inner::convert::From<&'state mut M> for MEntry<'state> {"));
    assert!(code.contains("match my_core::inner::mem::replace(self.0, M::B) {"));
    assert!(code.contains("_ => my_core::inner::panic!(\"entry struct was instantiated with a mismatched state\"),"));
    assert_eq!(Mermaid::default().0, Mermaid::new().0);
}
