//! What can go wrong while reading a machine description or building its graph.
use vstd::prelude::*;

verus! {

/// The kind of a failure.
#[derive(Clone, Copy, Debug, PartialEq, Eq, Structural)]
pub enum ErrorKind {
    /// The text does not follow the grammar.
    Syntax,
    /// A payload is not one Rust type.
    InvalidType,
    /// A name that must be a Rust identifier is a keyword or malformed.
    InvalidName,
    /// Generic parameters that are not a list of Rust generic parameters.
    InvalidGenerics,
    /// An attribute whose body is not one Rust attribute.
    InvalidAttribute,
    /// A `where` clause that is not one Rust `where` clause.
    InvalidWhere,
    /// A configuration key that is not recognised.
    UnknownOption,
    /// A configuration key given twice.
    DuplicateOption,
    /// A configuration value of the wrong shape.
    InvalidOption,
    /// A node declared twice with different payload types.
    IncompatibleRedefinition,
    /// The same directed edge declared twice.
    DuplicateEdge,
    /// Two edges leaving one node would get the same method name.
    DuplicateMethod,
    /// A derived method name that is not a Rust identifier, even when escaped.
    InvalidMethodName,
    /// The machine has no transitions.
    NoEdges,
}

/// A failure, with the character offset in the input that caused it.
#[derive(Clone, Copy, Debug, PartialEq, Eq, Structural)]
pub struct Error {
    pub kind: ErrorKind,
    pub pos: usize,
}

impl Error {
    pub fn new(kind: ErrorKind, pos: usize) -> (r: Error)
        ensures
            r.kind == kind,
            r.pos == pos,
    {
        Error { kind, pos }
    }

    /// A human readable description of the failure.
    pub fn message(&self) -> (r: &'static str)
        ensures
            r@ == message_text(self.kind),
    {
        match self.kind {
            ErrorKind::Syntax => "unexpected input",
            ErrorKind::InvalidType => "expected a type",
            ErrorKind::InvalidName => "expected an identifier",
            ErrorKind::InvalidGenerics => "expected generic parameters",
            ErrorKind::InvalidAttribute => "expected an attribute",
            ErrorKind::InvalidWhere => "expected a where clause",
            ErrorKind::UnknownOption => "unknown option",
            ErrorKind::DuplicateOption => "duplicate value for key",
            ErrorKind::InvalidOption => "invalid value for option",
            ErrorKind::IncompatibleRedefinition => "incompatible redefinition",
            ErrorKind::DuplicateEdge => "duplicate edge definition",
            ErrorKind::DuplicateMethod => "duplicate method name",
            ErrorKind::InvalidMethodName => "method name is not an identifier",
            ErrorKind::NoEdges => "must define at least one edge `A -> B`",
        }
    }
}

/// The description of each kind of failure.
pub open spec fn message_text(k: ErrorKind) -> Seq<char> {
    match k {
        ErrorKind::Syntax => "unexpected input"@,
        ErrorKind::InvalidType => "expected a type"@,
        ErrorKind::InvalidName => "expected an identifier"@,
        ErrorKind::InvalidGenerics => "expected generic parameters"@,
        ErrorKind::InvalidAttribute => "expected an attribute"@,
        ErrorKind::InvalidWhere => "expected a where clause"@,
        ErrorKind::UnknownOption => "unknown option"@,
        ErrorKind::DuplicateOption => "duplicate value for key"@,
        ErrorKind::InvalidOption => "invalid value for option"@,
        ErrorKind::IncompatibleRedefinition => "incompatible redefinition"@,
        ErrorKind::DuplicateEdge => "duplicate edge definition"@,
        ErrorKind::DuplicateMethod => "duplicate method name"@,
        ErrorKind::InvalidMethodName => "method name is not an identifier"@,
        ErrorKind::NoEdges => "must define at least one edge `A -> B`"@,
    }
}

/// The line, counted from 1, of the character at offset `n`.
pub open spec fn line_at(s: Seq<char>, n: int) -> nat
    decreases n,
{
    if n <= 0 {
        1
    } else if s[n - 1] == '\n' {
        line_at(s, n - 1) + 1
    } else {
        line_at(s, n - 1)
    }
}

/// The column, counted from 1, of the character at offset `n`.
pub open spec fn column_at(s: Seq<char>, n: int) -> nat
    decreases n,
{
    if n <= 0 {
        1
    } else if s[n - 1] == '\n' {
        1
    } else {
        column_at(s, n - 1) + 1
    }
}

/// The line and column of a character offset into `text`, for diagnostics.
pub fn line_and_column(text: &str, pos: usize) -> (r: (usize, usize))
    requires
        pos <= text@.len(),
        pos < usize::MAX,
    ensures
        r.0 == line_at(text@, pos as int),
        r.1 == column_at(text@, pos as int),
{
    let s = crate::text::chars_of(text);
    let mut line: usize = 1;
    let mut col: usize = 1;
    let mut i: usize = 0;
    while i < pos
        invariant
            i <= pos <= s@.len(),
            pos < usize::MAX,
            s@ == text@,
            line == line_at(s@, i as int),
            col == column_at(s@, i as int),
            line <= i + 1,
            col <= i + 1,
        decreases pos - i,
    {
        if s[i] == '\n' {
            line = line + 1;
            col = 1;
        } else {
            col = col + 1;
        }
        i = i + 1;
    }
    (line, col)
}

} // verus!
