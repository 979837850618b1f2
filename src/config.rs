//! The options that shape the generated code.
use vstd::prelude::*;
use crate::text::chars_are;

verus! {

/// What a transition does when its handle does not match the machine's state.
#[derive(Clone, Copy, Debug, PartialEq, Eq, Structural)]
pub enum Trust {
    /// Panic with a message.
    Checked,
    /// Treat the mismatch as unreachable, without a check. The caller
    /// guarantees that it cannot happen.
    Trusted,
}

/// The recognised options.
#[derive(Clone, Copy, Debug, PartialEq, Eq, Structural)]
pub enum OptionKey {
    /// `rename_methods = bool`: derive method names in snake case.
    RenameMethods,
    /// `entry = vis Name`: the visibility and name of the entry type.
    Entry,
    /// `unsafe = bool`: trust that handles always match.
    Unsafe,
    /// `path_to_core = path`: the path of the core library.
    PathToCore,
    /// `mermaid = bool`: attach a diagram to the documentation.
    Mermaid,
}

pub open spec fn key_of(k: Seq<char>) -> Option<OptionKey> {
    if k == "rename_methods"@ {
        Some(OptionKey::RenameMethods)
    } else if k == "entry"@ {
        Some(OptionKey::Entry)
    } else if k == "unsafe"@ {
        Some(OptionKey::Unsafe)
    } else if k == "path_to_core"@ {
        Some(OptionKey::PathToCore)
    } else if k == "mermaid"@ {
        Some(OptionKey::Mermaid)
    } else {
        None
    }
}

/// The option that a key names.
pub fn option_key(k: &Vec<char>) -> (r: Option<OptionKey>)
    ensures
        r == key_of(k@),
{
    if chars_are(k, "rename_methods") {
        Some(OptionKey::RenameMethods)
    } else if chars_are(k, "entry") {
        Some(OptionKey::Entry)
    } else if chars_are(k, "unsafe") {
        Some(OptionKey::Unsafe)
    } else if chars_are(k, "path_to_core") {
        Some(OptionKey::PathToCore)
    } else if chars_are(k, "mermaid") {
        Some(OptionKey::Mermaid)
    } else {
        None
    }
}

pub struct Options {
    pub rename_methods: bool,
    /// Visibility and name of the entry type; by default the machine's
    /// visibility and its name followed by `Entry`.
    pub entry: Option<(Vec<char>, Vec<char>)>,
    pub trust: Trust,
    pub path_to_core: Vec<char>,
    pub mermaid: bool,
}

impl Options {
    /// The defaults: renamed methods, the default entry type, checked
    /// transitions, `::core`, no diagram.
    pub fn new() -> (r: Options)
        ensures
            r.rename_methods,
            r.entry is None,
            r.trust == Trust::Checked,
            r.path_to_core@ == "::core"@,
            !r.mermaid,
    {
        Options {
            rename_methods: true,
            entry: None,
            trust: Trust::Checked,
            path_to_core: crate::text::chars_of("::core"),
            mermaid: false,
        }
    }
}

} // verus!
