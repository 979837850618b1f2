//! The machine description language, read from text.
//!
//! ```text
//! machine    := doc* attr* vis? 'enum'? name generics? where? '{' stmt* '}'
//! attr       := '#' '[' 'fsmentry' '(' option (',' option)* ','? ')' ']'
//!             | '#' '[' tokens ']'           -- kept as written
//! generics   := '<' tokens '>'
//! where      := 'where' tokens                -- up to the '{'
//! stmt       := doc* name (':' type)? ';'
//!             | doc* name (arrow name)+ ';'
//! arrow      := doc* ('->' | '-' '->' | '-' name '->' | '-' '-'? string '-'? '->')
//! option     := key '=' value | key '(' value ')'
//! ```
//!
//! A `///` line is documentation; any other `//` line is a comment.
use vstd::prelude::*;
use crate::config::{key_of, option_key, OptionKey, Options, Trust};
use crate::error::{Error, ErrorKind};
use crate::names::{canonical_type, parses_as_ident, rust_ident, type_tokens};
use crate::text::{chars_are, is_word, push_str, word_char, word_start};

verus! {

/// A node declared on its own: `Name;` or `Name: Type;`.
pub struct StmtNode {
    pub doc: Vec<Vec<char>>,
    pub name: Vec<char>,
    /// The payload type, as its canonical tokens.
    pub ty: Option<Vec<char>>,
    pub pos: usize,
}

/// The arrow between two nodes of a chain.
pub enum Arrow {
    /// `->` or `-->`: the method is named after the destination.
    Plain,
    /// `-name->`: the method is called `name`.
    Named(Vec<char>),
    /// `-"text"->`: documentation for this transition only.
    Documented(Vec<char>),
}

/// One arrow of a chain and the node it leads to.
pub struct Step {
    /// Documentation written just before the arrow, for this transition only.
    pub doc: Vec<Vec<char>>,
    pub arrow: Arrow,
    pub to: Vec<char>,
    /// Where the arrow starts.
    pub pos: usize,
}

/// A chain of transitions `A -> B -> C;`, with documentation shared by all of them.
pub struct StmtEdges {
    pub doc: Vec<Vec<char>>,
    pub first: Vec<char>,
    pub pos: usize,
    pub steps: Vec<Step>,
}

pub enum Stmt {
    Node(StmtNode),
    Chain(StmtEdges),
}

pub open spec fn is_space(c: char) -> bool {
    c == ' ' || c == '\t' || c == '\n' || c == '\r'
}

pub open spec fn at(s: Seq<char>, i: int, c: char) -> bool {
    0 <= i < s.len() && s[i] == c
}

/// Whether a doc comment `///` starts at `i`.
pub open spec fn doc_start(s: Seq<char>, i: int) -> bool {
    at(s, i, '/') && at(s, i + 1, '/') && at(s, i + 2, '/')
}

/// Whether `c` is at `p + k`.
fn is_at_off(s: &Vec<char>, p: usize, k: usize, c: char) -> (r: bool)
    requires
        p <= s@.len(),
    ensures
        r == at(s@, p + k, c),
        s@.len() <= usize::MAX,
{
    k < s.len() - p && s[p + k] == c
}

fn err<T>(kind: ErrorKind, pos: usize) -> (r: Result<T, Error>)
    ensures
        r == Err::<T, Error>(Error { kind, pos }),
{
    Err(Error { kind, pos })
}

/// The offset of the first newline at or after `i`, or the end of the text.
pub open spec fn line_end_from(s: Seq<char>, i: int) -> int
    decreases s.len() - i,
{
    if 0 <= i < s.len() && s[i] != '\n' {
        line_end_from(s, i + 1)
    } else {
        i
    }
}

/// Whether a comment that is not documentation starts at `i`.
pub open spec fn comment_start(s: Seq<char>, i: int) -> bool {
    at(s, i, '/') && at(s, i + 1, '/') && !at(s, i + 2, '/')
}

/// Where white space and comments that start at `i` end; `in_comment` when
/// `i` is inside a comment.
pub open spec fn trivia_from(s: Seq<char>, i: int, in_comment: bool) -> int
    decreases s.len() - i,
{
    if !(0 <= i < s.len()) {
        i
    } else if in_comment {
        trivia_from(s, i + 1, s[i] != '\n')
    } else if is_space(s[i]) {
        trivia_from(s, i + 1, false)
    } else if comment_start(s, i) {
        trivia_from(s, i + 2, true)
    } else {
        i
    }
}

pub open spec fn trivia_end(s: Seq<char>, i: int) -> int {
    trivia_from(s, i, false)
}

/// Where the run of identifier characters from `i` ends.
pub open spec fn word_end(s: Seq<char>, i: int) -> int
    decreases s.len() - i,
{
    if 0 <= i < s.len() && crate::text::is_word_char(s[i]) {
        word_end(s, i + 1)
    } else {
        i
    }
}

/// The identifier-like word that starts at `i`, and where it ends.
pub open spec fn word_at(s: Seq<char>, i: int) -> Option<(Seq<char>, int)> {
    if 0 <= i < s.len() && crate::text::is_word_start(s[i]) {
        Some((s.subrange(i, word_end(s, i + 1)), word_end(s, i + 1)))
    } else {
        None
    }
}

pub open spec fn syntax_error<T>(p: int) -> Result<T, Error> {
    Err(Error { kind: ErrorKind::Syntax, pos: p as usize })
}

/// A name after trivia: a word that syn takes as an identifier.
pub open spec fn name_at(s: Seq<char>, i: int) -> Result<(Seq<char>, int), Error> {
    let p = trivia_end(s, i);
    match word_at(s, p) {
        None => syntax_error(p),
        Some((w, q)) => if rust_ident(w) {
            Ok((w, q))
        } else {
            Err(Error { kind: ErrorKind::InvalidName, pos: p as usize })
        },
    }
}

/// The punctuation `c` after trivia; the offset just after it.
pub open spec fn expect_at(s: Seq<char>, i: int, c: char) -> Result<int, Error> {
    let p = trivia_end(s, i);
    if at(s, p, c) {
        Ok(p + 1)
    } else {
        syntax_error(p)
    }
}

/// Documentation lines from `i`: each `///` line after trivia, up to its newline.
pub open spec fn docs_from(s: Seq<char>, i: int) -> (Seq<Seq<char>>, int)
    decreases s.len() - i,
{
    let p = trivia_end(s, i);
    if doc_start(s, p) && i <= p {
        let e = line_end_from(s, p + 3);
        if i < e <= s.len() {
            let rest = docs_from(s, e);
            (seq![s.subrange(p + 3, e)] + rest.0, rest.1)
        } else {
            (Seq::empty(), p)
        }
    } else {
        (Seq::empty(), p)
    }
}

/// The offset of the end of the line that holds `pos`.
fn line_end(s: &Vec<char>, pos: usize) -> (r: usize)
    requires
        pos <= s@.len(),
    ensures
        pos <= r <= s@.len(),
        r == s@.len() || s@[r as int] == '\n',
        forall|j: int| pos <= j < r ==> s@[j] != '\n',
        r == line_end_from(s@, pos as int),
{
    let mut p = pos;
    while p < s.len() && s[p] != '\n'
        invariant
            pos <= p <= s@.len(),
            line_end_from(s@, pos as int) == line_end_from(s@, p as int),
            forall|j: int| pos <= j < p ==> s@[j] != '\n',
        decreases s@.len() - p,
    {
        p = p + 1;
    }
    p
}

/// Skip white space and comments, but not documentation.
pub fn skip_trivia(s: &Vec<char>, pos: usize) -> (r: usize)
    requires
        pos <= s@.len(),
    ensures
        pos <= r <= s@.len(),
        r == trivia_end(s@, pos as int),
        r < s@.len() ==> !is_space(s@[r as int]),
        !(at(s@, r as int, '/') && at(s@, r as int + 1, '/')) || doc_start(s@, r as int),
{
    let mut p = pos;
    let mut in_comment = false;
    loop
        invariant
            pos <= p <= s@.len(),
            trivia_end(s@, pos as int) == trivia_from(s@, p as int, in_comment),
        decreases s@.len() - p,
    {
        if p >= s.len() {
            return p;
        }
        if in_comment {
            in_comment = s[p] != '\n';
            p = p + 1;
        } else if s[p] == ' ' || s[p] == '\t' || s[p] == '\n' || s[p] == '\r' {
            p = p + 1;
        } else if is_at_off(s, p, 0, '/') && is_at_off(s, p, 1, '/') && !is_at_off(s, p, 2, '/') {
            in_comment = true;
            p = p + 2;
        } else {
            return p;
        }
    }
}

/// Documentation lines, each the text after `///` up to the end of its line.
pub fn parse_docs(s: &Vec<char>, pos: usize) -> (r: (Vec<Vec<char>>, usize))
    requires
        pos <= s@.len(),
    ensures
        pos <= r.1 <= s@.len(),
        (crate::graph::lines(r.0@), r.1 as int) == docs_from(s@, pos as int),
        !doc_start(s@, r.1 as int),
        r.1 < s@.len() ==> !is_space(s@[r.1 as int]),
        forall|i: int| 0 <= i < r.0@.len() ==> !(#[trigger] r.0@[i])@.contains('\n'),
{
    let mut docs: Vec<Vec<char>> = Vec::new();
    let ghost mut from: int = pos as int;
    let mut p = skip_trivia(s, pos);
    while is_at_off(s, p, 0, '/') && is_at_off(s, p, 1, '/') && is_at_off(s, p, 2, '/')
        invariant
            pos <= from <= p <= s@.len(),
            p == trivia_end(s@, from),
            docs_from(s@, pos as int) == (crate::graph::lines(docs@) + docs_from(s@, from).0, docs_from(
                s@,
                from,
            ).1),
            p < s@.len() ==> !is_space(s@[p as int]),
            forall|i: int| 0 <= i < docs@.len() ==> !(#[trigger] docs@[i])@.contains('\n'),
        decreases s@.len() - p,
    {
        let end = line_end(s, p + 3);
        let mut line: Vec<char> = Vec::new();
        let mut q = p + 3;
        while q < end
            invariant
                p + 3 <= q <= end <= s@.len(),
                line@ == s@.subrange(p + 3, q as int),
                forall|j: int| p + 3 <= j < end ==> s@[j] != '\n',
                forall|j: int| 0 <= j < line@.len() ==> line@[j] != '\n',
            decreases end - q,
        {
            line.push(s[q]);
            q = q + 1;
            proof {
                assert(line@ =~= s@.subrange(p + 3, q as int));
            }
        }
        let ghost old_docs = crate::graph::lines(docs@);
        let ghost d = docs_from(s@, from);
        docs.push(line);
        proof {
            assert(d == (seq![s@.subrange(p + 3, end as int)] + docs_from(s@, end as int).0, docs_from(
                s@,
                end as int,
            ).1));
            assert(crate::graph::lines(docs@) =~= old_docs.push(s@.subrange(p + 3, end as int)));
            assert(old_docs + d.0 =~= crate::graph::lines(docs@) + docs_from(s@, end as int).0);
            assert(!line@.contains('\n'));
            from = end as int;
        }
        p = skip_trivia(s, end);
    }
    proof {
        assert(docs_from(s@, from) == (Seq::<Seq<char>>::empty(), p as int));
        assert(crate::graph::lines(docs@) + Seq::<Seq<char>>::empty() =~= crate::graph::lines(docs@));
    }
    (docs, p)
}

/// A run of identifier characters at `pos`, if one starts there.
pub fn parse_word(s: &Vec<char>, pos: usize) -> (r: Option<(Vec<char>, usize)>)
    requires
        pos <= s@.len(),
    ensures
        match r {
            Some((w, p)) => pos < p <= s@.len() && w@ == s@.subrange(pos as int, p as int)
                && is_word(w@) && (p == s@.len() || !crate::text::is_word_char(s@[p as int])),
            None => !(pos < s@.len() && crate::text::is_word_start(s@[pos as int])),
        },
        match r {
            Some((w, p)) => word_at(s@, pos as int) == Some((w@, p as int)),
            None => word_at(s@, pos as int) is None,
        },
{
    if !(pos < s.len() && word_start(s[pos])) {
        return None;
    }
    let mut w: Vec<char> = Vec::new();
    w.push(s[pos]);
    let mut p = pos + 1;
    while p < s.len() && word_char(s[p])
        invariant
            pos < p <= s@.len(),
            w@ == s@.subrange(pos as int, p as int),
            word_end(s@, pos + 1) == word_end(s@, p as int),
            crate::text::is_word_start(w@[0]),
            forall|i: int| 0 < i < w@.len() ==> crate::text::is_word_char(#[trigger] w@[i]),
        decreases s@.len() - p,
    {
        w.push(s[p]);
        p = p + 1;
        proof {
            assert(w@ =~= s@.subrange(pos as int, p as int));
        }
    }
    Some((w, p))
}

/// An identifier that syn accepts, after any trivia.
pub fn parse_name(s: &Vec<char>, pos: usize) -> (r: Result<(Vec<char>, usize), Error>)
    requires
        pos <= s@.len(),
    ensures
        match r {
            Ok((w, p)) => pos < p <= s@.len() && rust_ident(w@) && is_word(w@),
            Err(e) => e.pos <= s@.len(),
        },
        match r {
            Ok((w, p)) => name_at(s@, pos as int) == Ok::<(Seq<char>, int), Error>((w@, p as int)),
            Err(e) => name_at(s@, pos as int) == Err::<(Seq<char>, int), Error>(e),
        },
{
    let p = skip_trivia(s, pos);
    match parse_word(s, p) {
        None => err(ErrorKind::Syntax, p),
        Some((w, q)) => {
            if parses_as_ident(&w) {
                Ok((w, q))
            } else {
                err(ErrorKind::InvalidName, p)
            }
        },
    }
}

/// The punctuation `c`, after any trivia.
pub fn expect(s: &Vec<char>, pos: usize, c: char) -> (r: Result<usize, Error>)
    requires
        pos <= s@.len(),
    ensures
        match r {
            Ok(p) => pos < p <= s@.len() && s@[p - 1] == c,
            Err(e) => e.pos <= s@.len(),
        },
        match r {
            Ok(p) => expect_at(s@, pos as int, c) == Ok::<int, Error>(p as int),
            Err(e) => expect_at(s@, pos as int, c) == Err::<int, Error>(e),
        },
{
    let p = skip_trivia(s, pos);
    if p < s.len() && s[p] == c {
        Ok(p + 1)
    } else {
        err(ErrorKind::Syntax, p)
    }
}

/// The contents of a string literal whose body starts at `i`, and the offset
/// just after its closing quote; `\"` and `\\` stand for `"` and `\`. A
/// failure gives the offset where reading stopped.
pub open spec fn literal_from(s: Seq<char>, i: int) -> Result<(Seq<char>, int), int>
    decreases s.len() - i,
{
    if i < 0 || i >= s.len() {
        Err(i)
    } else if s[i] == '"' {
        Ok((Seq::empty(), i + 1))
    } else if s[i] == '\\' {
        if i + 1 < s.len() && (s[i + 1] == '"' || s[i + 1] == '\\') {
            match literal_from(s, i + 2) {
                Ok((w, e)) => Ok((seq![s[i + 1]] + w, e)),
                Err(p) => Err(p),
            }
        } else {
            Err(i)
        }
    } else {
        match literal_from(s, i + 1) {
            Ok((w, e)) => Ok((seq![s[i]] + w, e)),
            Err(p) => Err(p),
        }
    }
}

/// What `literal_from(s, i)` is, once `w` has been read up to `i`.
pub open spec fn literal_after(s: Seq<char>, w: Seq<char>, i: int) -> Result<(Seq<char>, int), int> {
    match literal_from(s, i) {
        Ok((rest, e)) => Ok((w + rest, e)),
        Err(p) => Err(p),
    }
}

/// A string literal whose first quote is at `pos`.
pub fn parse_string(s: &Vec<char>, pos: usize) -> (r: Result<(Vec<char>, usize), Error>)
    requires
        pos < s@.len(),
        s@[pos as int] == '"',
    ensures
        match r {
            Ok((w, p)) => pos < p <= s@.len() && literal_from(s@, pos + 1) == Ok::<
                (Seq<char>, int),
                int,
            >((w@, p as int)),
            Err(e) => e.pos <= s@.len() && e.kind == ErrorKind::Syntax && literal_from(s@, pos + 1)
                == Err::<(Seq<char>, int), int>(e.pos as int),
        },
{
    let mut w: Vec<char> = Vec::new();
    let len = s.len();
    let mut p = pos + 1;
    proof {
        assert(w@ + Seq::<char>::empty() =~= Seq::<char>::empty());
        assert forall|x: Seq<char>| w@ + x == x by {
            assert(w@ + x =~= x);
        }
    }
    loop
        invariant
            pos < p <= s@.len(),
            len == s@.len(),
            literal_from(s@, pos + 1) == literal_after(s@, w@, p as int),
        decreases s@.len() - p,
    {
        if p >= len {
            return err(ErrorKind::Syntax, p);
        }
        let c = s[p];
        if c == '"' {
            proof {
                assert(w@ + Seq::<char>::empty() =~= w@);
            }
            return Ok((w, p + 1));
        } else if c == '\\' {
            if is_at_off(s, p, 1, '"') || is_at_off(s, p, 1, '\\') {
                let ghost before = w@;
                w.push(s[p + 1]);
                proof {
                    assert forall|x: Seq<char>| before + (seq![s@[p + 1]] + x) == w@ + x by {
                        assert(before + (seq![s@[p + 1]] + x) =~= w@ + x);
                    }
                }
                p = p + 2;
            } else {
                return err(ErrorKind::Syntax, p);
            }
        } else {
            let ghost before = w@;
            w.push(c);
            proof {
                assert forall|x: Seq<char>| before + (seq![c] + x) == w@ + x by {
                    assert(before + (seq![c] + x) =~= w@ + x);
                }
            }
            p = p + 1;
        }
    }
}

pub open spec fn opens(c: char) -> bool {
    c == '(' || c == '[' || c == '{'
}

pub open spec fn closes(c: char) -> bool {
    c == ')' || c == ']' || c == '}'
}

/// The offset of the `;` that ends a payload type, scanning from `q` at
/// bracket depth `depth`; a failure gives the offset where scanning stopped.
pub open spec fn type_close(s: Seq<char>, q: int, depth: nat) -> Result<int, int>
    decreases s.len() - q,
{
    if !(0 <= q < s.len()) {
        Err(q)
    } else if s[q] == ';' && depth == 0 {
        Ok(q)
    } else if opens(s[q]) {
        type_close(s, q + 1, depth + 1)
    } else if closes(s[q]) {
        if depth == 0 {
            Err(q)
        } else {
            type_close(s, q + 1, (depth - 1) as nat)
        }
    } else {
        type_close(s, q + 1, depth)
    }
}

/// A payload type from `i` to its `;`, as canonical tokens.
pub open spec fn type_at(s: Seq<char>, i: int) -> Result<(Seq<char>, int), Error> {
    match type_close(s, i, 0) {
        Err(p) => syntax_error(p),
        Ok(q) => match type_tokens(s.subrange(i, q)) {
            Some(t) => Ok((t, q)),
            None => Err(Error { kind: ErrorKind::InvalidType, pos: i as usize }),
        },
    }
}

/// The text of a payload type starts at `pos` and runs up to the first `;`
/// outside brackets, which is not consumed. Returns the type's canonical tokens.
pub fn parse_type(s: &Vec<char>, pos: usize) -> (r: Result<(Vec<char>, usize), Error>)
    requires
        pos <= s@.len(),
    ensures
        match r {
            Ok((t, q)) => pos <= q < s@.len() && s@[q as int] == ';'
                && type_tokens(s@.subrange(pos as int, q as int)) == Some(t@),
            Err(e) => e.pos <= s@.len(),
        },
        match r {
            Ok((t, q)) => type_at(s@, pos as int) == Ok::<(Seq<char>, int), Error>((t@, q as int)),
            Err(e) => type_at(s@, pos as int) == Err::<(Seq<char>, int), Error>(e),
        },
{
    let mut depth: usize = 0;
    let mut q = pos;
    let mut raw: Vec<char> = Vec::new();
    loop
        invariant
            pos <= q <= s@.len(),
            depth <= q,
            raw@ == s@.subrange(pos as int, q as int),
            type_close(s@, pos as int, 0) == type_close(s@, q as int, depth as nat),
        decreases s@.len() - q,
    {
        if q >= s.len() {
            return err(ErrorKind::Syntax, q);
        }
        let c = s[q];
        if c == ';' && depth == 0 {
            return match canonical_type(&raw) {
                Some(t) => Ok((t, q)),
                None => err(ErrorKind::InvalidType, pos),
            };
        } else if c == '(' || c == '[' || c == '{' {
            depth = depth + 1;
        } else if c == ')' || c == ']' || c == '}' {
            if depth == 0 {
                return err(ErrorKind::Syntax, q);
            }
            depth = depth - 1;
        }
        raw.push(c);
        q = q + 1;
        proof {
            assert(raw@ =~= s@.subrange(pos as int, q as int));
        }
    }
}

/// Whether `->` starts at `i`.
pub open spec fn arrow_head(s: Seq<char>, i: int) -> bool {
    at(s, i, '-') && at(s, i + 1, '>')
}

/// After a documenting string that ended at `e`: `->` or `-->`.
pub open spec fn doc_arrow_end(s: Seq<char>, text: Seq<char>, e: int) -> Result<
    Option<(crate::graph::ArrowModel, int)>,
    Error,
> {
    let f = trivia_end(s, e);
    if arrow_head(s, f) {
        Ok(Some((crate::graph::ArrowModel::Documented(text), f + 2)))
    } else if at(s, f, '-') {
        let g = trivia_end(s, f + 1);
        if arrow_head(s, g) {
            Ok(Some((crate::graph::ArrowModel::Documented(text), g + 2)))
        } else {
            syntax_error(g)
        }
    } else {
        syntax_error(f)
    }
}

/// The arrow after trivia from `i`, if a `-` starts one.
pub open spec fn arrow_at(s: Seq<char>, i: int) -> Result<Option<(crate::graph::ArrowModel, int)>, Error> {
    let p = trivia_end(s, i);
    if !at(s, p, '-') {
        Ok(None)
    } else if at(s, p + 1, '>') {
        Ok(Some((crate::graph::ArrowModel::Plain, p + 2)))
    } else {
        let q0 = trivia_end(s, p + 1);
        if arrow_head(s, q0) {
            Ok(Some((crate::graph::ArrowModel::Plain, q0 + 2)))
        } else {
            let q = if at(s, q0, '-') {
                trivia_end(s, q0 + 1)
            } else {
                q0
            };
            if at(s, q, '"') {
                match literal_from(s, q + 1) {
                    Err(x) => syntax_error(x),
                    Ok((text, e)) => doc_arrow_end(s, text, e),
                }
            } else {
                match name_at(s, q) {
                    Err(e) => Err(e),
                    Ok((n, e)) => {
                        let f = trivia_end(s, e);
                        if arrow_head(s, f) {
                            Ok(Some((crate::graph::ArrowModel::Named(n), f + 2)))
                        } else {
                            syntax_error(f)
                        }
                    },
                }
            }
        }
    }
}

/// An arrow after any trivia, or `None` where no `-` follows.
pub fn parse_arrow(s: &Vec<char>, pos: usize) -> (r: Result<Option<(Arrow, usize)>, Error>)
    requires
        pos <= s@.len(),
    ensures
        match r {
            Ok(Some((a, p))) => pos < p <= s@.len() && (a matches Arrow::Named(n) ==> rust_ident(
                n@,
            )),
            Ok(None) => true,
            Err(e) => e.pos <= s@.len(),
        },
        match r {
            Ok(Some((a, p))) => arrow_at(s@, pos as int) == Ok::<
                Option<(crate::graph::ArrowModel, int)>,
                Error,
            >(Some((crate::graph::arrow_model(a), p as int))),
            Ok(None) => arrow_at(s@, pos as int) == Ok::<
                Option<(crate::graph::ArrowModel, int)>,
                Error,
            >(None),
            Err(e) => arrow_at(s@, pos as int) == Err::<
                Option<(crate::graph::ArrowModel, int)>,
                Error,
            >(e),
        },
{
    let p = skip_trivia(s, pos);
    if !(p < s.len() && s[p] == '-') {
        return Ok(None);
    }
    if is_at_off(s, p, 1, '>') {
        return Ok(Some((Arrow::Plain, p + 2)));
    }
    let q = skip_trivia(s, p + 1);
    if is_at_off(s, q, 0, '-') && is_at_off(s, q, 1, '>') {
        return Ok(Some((Arrow::Plain, q + 2)));
    }
    let q = if is_at_off(s, q, 0, '-') {
        skip_trivia(s, q + 1)
    } else {
        q
    };
    if q < s.len() && s[q] == '"' {
        let (text, e) = parse_string(s, q)?;
        let f = skip_trivia(s, e);
        if is_at_off(s, f, 0, '-') && is_at_off(s, f, 1, '>') {
            return Ok(Some((Arrow::Documented(text), f + 2)));
        }
        if is_at_off(s, f, 0, '-') {
            let g = skip_trivia(s, f + 1);
            if is_at_off(s, g, 0, '-') && is_at_off(s, g, 1, '>') {
                return Ok(Some((Arrow::Documented(text), g + 2)));
            }
            return err(ErrorKind::Syntax, g);
        }
        return err(ErrorKind::Syntax, f);
    }
    let (name, e) = parse_name(s, q)?;
    let f = skip_trivia(s, e);
    if is_at_off(s, f, 0, '-') && is_at_off(s, f, 1, '>') {
        return Ok(Some((Arrow::Named(name), f + 2)));
    }
    err(ErrorKind::Syntax, f)
}

/// One step of a chain, as plain values.
pub struct StepModel {
    pub doc: Seq<Seq<char>>,
    pub arrow: crate::graph::ArrowModel,
    pub to: Seq<char>,
    pub pos: usize,
}

/// A statement, as plain values.
pub enum StmtModel {
    Node { doc: Seq<Seq<char>>, name: Seq<char>, ty: Option<Seq<char>>, pos: usize },
    Chain { doc: Seq<Seq<char>>, first: Seq<char>, pos: usize, steps: Seq<StepModel> },
}

pub open spec fn step_model(st: Step) -> StepModel {
    StepModel {
        doc: crate::graph::lines(st.doc@),
        arrow: crate::graph::arrow_model(st.arrow),
        to: st.to@,
        pos: st.pos,
    }
}

pub open spec fn step_models(v: Seq<Step>) -> Seq<StepModel> {
    v.map_values(|st: Step| step_model(st))
}

pub open spec fn stmt_model(st: Stmt) -> StmtModel {
    match st {
        Stmt::Node(n) => StmtModel::Node {
            doc: crate::graph::lines(n.doc@),
            name: n.name@,
            ty: crate::graph::opt(n.ty),
            pos: n.pos,
        },
        Stmt::Chain(c) => StmtModel::Chain {
            doc: crate::graph::lines(c.doc@),
            first: c.first@,
            pos: c.pos,
            steps: step_models(c.steps@),
        },
    }
}

pub open spec fn prepend_steps(xs: Seq<StepModel>, r: Result<(Seq<StepModel>, int), Error>) -> Result<
    (Seq<StepModel>, int),
    Error,
> {
    match r {
        Ok((rest, e)) => Ok((xs + rest, e)),
        Err(e) => Err(e),
    }
}

/// The steps of a chain from `cur` up to and past its `;`. A chain needs at
/// least one step, and documentation must be followed by an arrow.
pub open spec fn steps_from(s: Seq<char>, cur: int, first: bool) -> Result<(Seq<StepModel>, int), Error>
    decreases s.len() - cur,
{
    let (doc, d) = docs_from(s, cur);
    let a = trivia_end(s, d);
    match arrow_at(s, d) {
        Err(e) => Err(e),
        Ok(None) => if !first && doc.len() == 0 && at(s, a, ';') {
            Ok((Seq::empty(), a + 1))
        } else {
            syntax_error(a)
        },
        Ok(Some((arrow, p))) => match name_at(s, p) {
            Err(e) => Err(e),
            Ok((to, b)) => if cur < b <= s.len() {
                prepend_steps(
                    seq![StepModel { doc, arrow, to, pos: a as usize }],
                    steps_from(s, b, false),
                )
            } else {
                syntax_error(b)
            },
        },
    }
}

/// One statement from `i`, and the offset just past its `;`.
pub open spec fn stmt_at(s: Seq<char>, i: int) -> Result<(StmtModel, int), Error> {
    let (doc, p) = docs_from(s, i);
    let start = trivia_end(s, p);
    match name_at(s, start) {
        Err(e) => Err(e),
        Ok((name, q0)) => {
            let q = trivia_end(s, q0);
            if at(s, q, ';') {
                Ok((StmtModel::Node { doc, name, ty: None, pos: start as usize }, q + 1))
            } else if at(s, q, ':') {
                match type_at(s, q + 1) {
                    Err(e) => Err(e),
                    Ok((t, e)) => Ok(
                        (StmtModel::Node { doc, name, ty: Some(t), pos: start as usize }, e + 1),
                    ),
                }
            } else {
                match steps_from(s, q, true) {
                    Err(e) => Err(e),
                    Ok((steps, e)) => Ok(
                        (StmtModel::Chain { doc, first: name, pos: start as usize, steps }, e),
                    ),
                }
            }
        },
    }
}

/// What every statement that was read satisfies: its names are
/// identifiers, and a chain has at least one step.
pub open spec fn stmt_wf(st: StmtModel) -> bool {
    match st {
        StmtModel::Node { name, .. } => rust_ident(name) && is_word(name),
        StmtModel::Chain { first, steps, .. } => {
            &&& rust_ident(first)
            &&& is_word(first)
            &&& steps.len() > 0
            &&& forall|i: int|
                0 <= i < steps.len() ==> rust_ident((#[trigger] steps[i]).to) && is_word(steps[i].to)
                    && (steps[i].arrow matches crate::graph::ArrowModel::Named(n) ==> rust_ident(n))
        },
    }
}

/// One statement, ending with its `;`.
pub fn parse_stmt(s: &Vec<char>, pos: usize) -> (r: Result<(Stmt, usize), Error>)
    requires
        pos <= s@.len(),
    ensures
        match r {
            Ok((st, p)) => pos < p <= s@.len() && stmt_wf(stmt_model(st)),
            Err(e) => e.pos <= s@.len(),
        },
        match r {
            Ok((st, p)) => stmt_at(s@, pos as int) == Ok::<(StmtModel, int), Error>(
                (stmt_model(st), p as int),
            ),
            Err(e) => stmt_at(s@, pos as int) == Err::<(StmtModel, int), Error>(e),
        },
{
    let (doc, p) = parse_docs(s, pos);
    let start = skip_trivia(s, p);
    let (name, q) = parse_name(s, start)?;
    let q = skip_trivia(s, q);
    if q < s.len() && s[q] == ';' {
        return Ok((Stmt::Node(StmtNode { doc, name, ty: None, pos: start }), q + 1));
    }
    if q < s.len() && s[q] == ':' {
        let (ty, e) = parse_type(s, q + 1)?;
        return Ok((Stmt::Node(StmtNode { doc, name, ty: Some(ty), pos: start }), e + 1));
    }
    let mut steps: Vec<Step> = Vec::new();
    let mut cur = q;
    proof {
        assert(step_models(steps@) =~= Seq::<StepModel>::empty());
        assert(prepend_steps(Seq::<StepModel>::empty(), steps_from(s@, q as int, true)) == steps_from(
            s@,
            q as int,
            true,
        )) by {
            match steps_from(s@, q as int, true) {
                Ok((rest, e)) => {
                    assert(Seq::<StepModel>::empty() + rest =~= rest);
                },
                Err(e) => {},
            }
        }
    }
    loop
        invariant
            q <= cur <= s@.len(),
            pos < cur,
            rust_ident(name@),
            is_word(name@),
            steps_from(s@, q as int, true) == prepend_steps(
                step_models(steps@),
                steps_from(s@, cur as int, steps@.len() == 0),
            ),
            stmt_at(s@, pos as int) == match steps_from(s@, q as int, true) {
                Err(e) => Err(e),
                Ok((st, e)) => Ok::<(StmtModel, int), Error>(
                    (
                        StmtModel::Chain {
                            doc: crate::graph::lines(doc@),
                            first: name@,
                            pos: start,
                            steps: st,
                        },
                        e,
                    ),
                ),
            },
            forall|i: int|
                0 <= i < steps@.len() ==> rust_ident((#[trigger] steps@[i]).to@) && is_word(
                    steps@[i].to@,
                ) && (steps@[i].arrow matches Arrow::Named(n) ==> rust_ident(n@)),
        decreases s@.len() - cur,
    {
        let (step_doc, d) = parse_docs(s, cur);
        let at_arrow = skip_trivia(s, d);
        match parse_arrow(s, d)? {
            None => {
                if steps.len() > 0 && step_doc.len() == 0 && at_arrow < s.len() && s[at_arrow] == ';' {
                    proof {
                        assert(step_models(steps@) + Seq::<StepModel>::empty() =~= step_models(steps@));
                    }
                    let c = StmtEdges { doc, first: name, pos: start, steps };
                    return Ok((Stmt::Chain(c), at_arrow + 1));
                }
                return err(ErrorKind::Syntax, at_arrow);
            },
            Some((arrow, a)) => {
                let (to, b) = parse_name(s, a)?;
                let step = Step { doc: step_doc, arrow, to, pos: at_arrow };
                let ghost before = step_models(steps@);
                steps.push(step);
                proof {
                    assert(step_models(steps@) =~= before.push(step_model(step)));
                    assert forall|rest: Seq<StepModel>| before + (seq![step_model(step)] + rest)
                        == step_models(steps@) + rest by {
                        assert(before + (seq![step_model(step)] + rest) =~= step_models(steps@) + rest);
                    }
                }
                cur = b;
            },
        }
    }
}

/// `true` or `false` after trivia.
pub open spec fn bool_at(s: Seq<char>, i: int) -> Result<(bool, int), Error> {
    let p = trivia_end(s, i);
    match word_at(s, p) {
        Some((w, q)) => if w == "true"@ {
            Ok((true, q))
        } else if w == "false"@ {
            Ok((false, q))
        } else {
            Err(Error { kind: ErrorKind::InvalidOption, pos: p as usize })
        },
        None => Err(Error { kind: ErrorKind::InvalidOption, pos: p as usize }),
    }
}

/// `true` or `false`, after any trivia.
fn parse_bool(s: &Vec<char>, pos: usize) -> (r: Result<(bool, usize), Error>)
    requires
        pos <= s@.len(),
    ensures
        match r {
            Ok((b, p)) => pos < p <= s@.len() && bool_at(s@, pos as int) == Ok::<(bool, int), Error>(
                (b, p as int),
            ),
            Err(e) => e.pos <= s@.len() && bool_at(s@, pos as int) == Err::<(bool, int), Error>(e),
        },
{
    let p = skip_trivia(s, pos);
    match parse_word(s, p) {
        Some((w, q)) => {
            if chars_are(&w, "true") {
                Ok((true, q))
            } else if chars_are(&w, "false") {
                Ok((false, q))
            } else {
                err(ErrorKind::InvalidOption, p)
            }
        },
        None => err(ErrorKind::InvalidOption, p),
    }
}

/// `::` after trivia; the offset just after it.
pub open spec fn path_sep_at(s: Seq<char>, p: int) -> Option<int> {
    let q = trivia_end(s, p);
    if at(s, q, ':') && at(s, q + 1, ':') {
        Some(q + 2)
    } else {
        None
    }
}

/// Whether `::` starts at `p`, after any trivia; returns where it ends.
fn path_sep(s: &Vec<char>, p: usize) -> (r: Option<usize>)
    requires
        p <= s@.len(),
    ensures
        r matches Some(q) ==> p < q <= s@.len(),
        match r {
            Some(q) => path_sep_at(s@, p as int) == Some(q as int),
            None => path_sep_at(s@, p as int) is None,
        },
{
    let q = skip_trivia(s, p);
    if is_at_off(s, q, 0, ':') && is_at_off(s, q, 1, ':') {
        Some(q + 2)
    } else {
        None
    }
}

pub open spec fn prefix_path(t: Seq<char>, r: Result<(Seq<char>, int), Error>) -> Result<(Seq<char>, int), Error> {
    match r {
        Ok((rest, f)) => Ok((t + rest, f)),
        Err(e) => Err(e),
    }
}

/// The `::segment` parts of a path from `p`.
pub open spec fn path_rest(s: Seq<char>, p: int) -> Result<(Seq<char>, int), Error>
    decreases s.len() - p,
{
    match path_sep_at(s, p) {
        None => Ok((Seq::empty(), p)),
        Some(q) => {
            let w = trivia_end(s, q);
            match word_at(s, w) {
                Some((seg, e)) => if p < e <= s.len() {
                    prefix_path("::"@ + seg, path_rest(s, e))
                } else {
                    syntax_error(e)
                },
                None => Err(Error { kind: ErrorKind::InvalidOption, pos: w as usize }),
            }
        },
    }
}

/// A module path after trivia, such as `::core` or `my_crate::inner`.
pub open spec fn path_at(s: Seq<char>, i: int) -> Result<(Seq<char>, int), Error> {
    let lead: Seq<char> = if path_sep_at(s, i) is Some {
        "::"@
    } else {
        Seq::empty()
    };
    let p = match path_sep_at(s, i) {
        Some(q) => q,
        None => i,
    };
    let w = trivia_end(s, p);
    match word_at(s, w) {
        None => Err(Error { kind: ErrorKind::InvalidOption, pos: w as usize }),
        Some((first, q)) => prefix_path(lead + first, path_rest(s, q)),
    }
}

/// A module path such as `::core` or `my_crate::inner`, after any trivia.
fn parse_path(s: &Vec<char>, pos: usize) -> (r: Result<(Vec<char>, usize), Error>)
    requires
        pos <= s@.len(),
    ensures
        match r {
            Ok((t, p)) => pos < p <= s@.len() && path_at(s@, pos as int) == Ok::<(Seq<char>, int), Error>(
                (t@, p as int),
            ),
            Err(e) => e.pos <= s@.len() && path_at(s@, pos as int) == Err::<(Seq<char>, int), Error>(e),
        },
{
    let mut text: Vec<char> = Vec::new();
    let mut p = pos;
    if let Some(q) = path_sep(s, p) {
        push_str(&mut text, "::");
        p = q;
    }
    proof {
        assert(text@ =~= (if path_sep_at(s@, pos as int) is Some {
            "::"@
        } else {
            Seq::<char>::empty()
        }));
    }
    let w = skip_trivia(s, p);
    let (first, q) = match parse_word(s, w) {
        Some(x) => x,
        None => {
            return err(ErrorKind::InvalidOption, w);
        },
    };
    crate::text::push_chars(&mut text, &first);
    p = q;
    loop
        invariant
            pos < p <= s@.len(),
            path_at(s@, pos as int) == prefix_path(text@, path_rest(s@, p as int)),
        decreases s@.len() - p,
    {
        match path_sep(s, p) {
            None => {
                proof {
                    assert(text@ + Seq::<char>::empty() =~= text@);
                }
                return Ok((text, p));
            },
            Some(q) => {
                let w = skip_trivia(s, q);
                match parse_word(s, w) {
                    Some((seg, e)) => {
                        let ghost before = text@;
                        push_str(&mut text, "::");
                        crate::text::push_chars(&mut text, &seg);
                        proof {
                            assert forall|rest: Seq<char>| before + (("::"@ + seg@) + rest) == text@
                                + rest by {
                                assert(before + (("::"@ + seg@) + rest) =~= text@ + rest);
                            }
                        }
                        p = e;
                    },
                    None => {
                        return err(ErrorKind::InvalidOption, w);
                    },
                }
            },
        }
    }
}

/// A visibility after trivia: nothing, `pub`, or `pub(crate)`, `pub(super)`,
/// `pub(self)`. Where no `pub` follows, nothing is consumed.
pub open spec fn vis_at(s: Seq<char>, i: int) -> Result<(Seq<char>, int), Error> {
    let p = trivia_end(s, i);
    match word_at(s, p) {
        None => Ok((Seq::empty(), i)),
        Some((w, q)) => if w != "pub"@ {
            Ok((Seq::empty(), i))
        } else {
            let o = trivia_end(s, q);
            if !at(s, o, '(') {
                Ok((w, q))
            } else {
                let k = trivia_end(s, o + 1);
                match word_at(s, k) {
                    Some((scope, e)) => if scope == "crate"@ || scope == "super"@ || scope
                        == "self"@ {
                        match expect_at(s, e, ')') {
                            Ok(c) => Ok((w + "("@ + scope + ")"@, c)),
                            Err(x) => Err(x),
                        }
                    } else {
                        syntax_error(k)
                    },
                    None => syntax_error(k),
                }
            }
        },
    }
}

/// A visibility: nothing, `pub`, or `pub(crate)`, `pub(super)`, `pub(self)`.
pub fn parse_vis(s: &Vec<char>, pos: usize) -> (r: Result<(Vec<char>, usize), Error>)
    requires
        pos <= s@.len(),
    ensures
        match r {
            Ok((v, p)) => pos <= p <= s@.len() && vis_at(s@, pos as int) == Ok::<(Seq<char>, int), Error>(
                (v@, p as int),
            ),
            Err(e) => e.pos <= s@.len() && vis_at(s@, pos as int) == Err::<(Seq<char>, int), Error>(e),
        },
{
    let p = skip_trivia(s, pos);
    let (w, q) = match parse_word(s, p) {
        Some(x) => x,
        None => {
            return Ok((Vec::new(), pos));
        },
    };
    if !chars_are(&w, "pub") {
        return Ok((Vec::new(), pos));
    }
    let mut vis = w;
    let o = skip_trivia(s, q);
    if !(o < s.len() && s[o] == '(') {
        return Ok((vis, q));
    }
    let i = skip_trivia(s, o + 1);
    match parse_word(s, i) {
        Some((scope, e)) => {
            if chars_are(&scope, "crate") || chars_are(&scope, "super") || chars_are(
                &scope,
                "self",
            ) {
                let c = match expect(s, e, ')') {
                    Ok(c) => c,
                    Err(x) => {
                        return Err(x);
                    },
                };
                let ghost before = vis@;
                vis.push('(');
                crate::text::push_chars(&mut vis, &scope);
                vis.push(')');
                proof {
                    reveal_strlit("(");
                    reveal_strlit(")");
                    assert(vis@ =~= before + "("@ + scope@ + ")"@);
                }
                Ok((vis, c))
            } else {
                err(ErrorKind::Syntax, i)
            }
        },
        None => err(ErrorKind::Syntax, i),
    }
}

/// The options, as plain values.
pub struct OptionsModel {
    pub rename_methods: bool,
    pub entry: Option<(Seq<char>, Seq<char>)>,
    pub trust: Trust,
    pub path_to_core: Seq<char>,
    pub mermaid: bool,
}

pub open spec fn options_model(o: Options) -> OptionsModel {
    OptionsModel {
        rename_methods: o.rename_methods,
        entry: match o.entry {
            Some((v, n)) => Some((v@, n@)),
            None => None,
        },
        trust: o.trust,
        path_to_core: o.path_to_core@,
        mermaid: o.mermaid,
    }
}

/// The options before any is given.
pub open spec fn default_options() -> OptionsModel {
    OptionsModel {
        rename_methods: true,
        entry: None,
        trust: Trust::Checked,
        path_to_core: "::core"@,
        mermaid: false,
    }
}

/// The value of option `which` from `v`, and the options it gives.
pub open spec fn value_at(s: Seq<char>, v: int, which: OptionKey, o: OptionsModel) -> Result<
    (OptionsModel, int),
    Error,
> {
    match which {
        OptionKey::RenameMethods => match bool_at(s, v) {
            Ok((b, a)) => Ok((OptionsModel { rename_methods: b, ..o }, a)),
            Err(e) => Err(e),
        },
        OptionKey::Unsafe => match bool_at(s, v) {
            Ok((b, a)) => Ok(
                (
                    OptionsModel {
                        trust: if b {
                            Trust::Trusted
                        } else {
                            Trust::Checked
                        },
                        ..o
                    },
                    a,
                ),
            ),
            Err(e) => Err(e),
        },
        OptionKey::Mermaid => match bool_at(s, v) {
            Ok((b, a)) => Ok((OptionsModel { mermaid: b, ..o }, a)),
            Err(e) => Err(e),
        },
        OptionKey::PathToCore => match path_at(s, v) {
            Ok((t, a)) => Ok((OptionsModel { path_to_core: t, ..o }, a)),
            Err(e) => Err(e),
        },
        OptionKey::Entry => match vis_at(s, v) {
            Err(e) => Err(e),
            Ok((vis, a)) => match name_at(s, a) {
                Err(e) => Err(e),
                Ok((n, b)) => Ok((OptionsModel { entry: Some((vis, n)), ..o }, b)),
            },
        },
    }
}

/// The value of option `which` after its key, written `= value` or `(value)`.
pub open spec fn option_value_at(s: Seq<char>, e: int, which: OptionKey, o: OptionsModel) -> Result<
    (OptionsModel, int),
    Error,
> {
    let q = trivia_end(s, e);
    if at(s, q, '=') {
        value_at(s, q + 1, which, o)
    } else if at(s, q, '(') {
        match value_at(s, q + 1, which, o) {
            Err(x) => Err(x),
            Ok((o2, a)) => match expect_at(s, a, ')') {
                Err(x) => Err(x),
                Ok(c) => Ok((o2, c)),
            },
        }
    } else {
        syntax_error(q)
    }
}

/// The options of one `fsmentry(...)` from `p`, just after its `(`, given
/// the options so far and the keys already seen; the offset just after its `)`.
pub open spec fn options_from(s: Seq<char>, p: int, o: OptionsModel, seen: Seq<OptionKey>) -> Result<
    (OptionsModel, Seq<OptionKey>, int),
    Error,
>
    decreases s.len() - p,
{
    let k = trivia_end(s, p);
    if at(s, k, ')') {
        Ok((o, seen, k + 1))
    } else {
        match word_at(s, k) {
            None => syntax_error(k),
            Some((key, e)) => match key_of(key) {
                None => Err(Error { kind: ErrorKind::UnknownOption, pos: k as usize }),
                Some(which) => if seen.contains(which) {
                    Err(Error { kind: ErrorKind::DuplicateOption, pos: k as usize })
                } else {
                    match option_value_at(s, e, which, o) {
                        Err(x) => Err(x),
                        Ok((o2, after)) => {
                                let c = trivia_end(s, after);
                                if at(s, c, ',') {
                                    if p < c + 1 <= s.len() {
                                        options_from(s, c + 1, o2, seen.push(which))
                                    } else {
                                        syntax_error(c)
                                    }
                                } else if at(s, c, ')') {
                                    Ok((o2, seen.push(which), c + 1))
                                } else {
                                    syntax_error(c)
                                }
                        },
                    }
                },
            },
        }
    }
}

fn has_key(seen: &Vec<OptionKey>, which: OptionKey) -> (r: bool)
    ensures
        r == seen@.contains(which),
{
    let mut i: usize = 0;
    while i < seen.len()
        invariant
            i <= seen@.len(),
            forall|j: int| 0 <= j < i ==> seen@[j] != which,
        decreases seen@.len() - i,
    {
        if seen[i] == which {
            return true;
        }
        i = i + 1;
    }
    false
}

/// Read the value of option `which` at `v` into `opts`.
fn parse_value(s: &Vec<char>, v: usize, which: OptionKey, opts: &mut Options) -> (r: Result<usize, Error>)
    requires
        v <= s@.len(),
    ensures
        match r {
            Ok(a) => v < a <= s@.len() && value_at(s@, v as int, which, options_model(*old(opts)))
                == Ok::<(OptionsModel, int), Error>((options_model(*final(opts)), a as int)),
            Err(e) => e.pos <= s@.len() && value_at(s@, v as int, which, options_model(*old(opts)))
                == Err::<(OptionsModel, int), Error>(e),
        },
{
    match which {
        OptionKey::RenameMethods => match parse_bool(s, v) {
            Ok((b, a)) => {
                opts.rename_methods = b;
                Ok(a)
            },
            Err(e) => Err(e),
        },
        OptionKey::Unsafe => match parse_bool(s, v) {
            Ok((b, a)) => {
                opts.trust = if b {
                    Trust::Trusted
                } else {
                    Trust::Checked
                };
                Ok(a)
            },
            Err(e) => Err(e),
        },
        OptionKey::Mermaid => match parse_bool(s, v) {
            Ok((b, a)) => {
                opts.mermaid = b;
                Ok(a)
            },
            Err(e) => Err(e),
        },
        OptionKey::PathToCore => match parse_path(s, v) {
            Ok((path, a)) => {
                opts.path_to_core = path;
                Ok(a)
            },
            Err(e) => Err(e),
        },
        OptionKey::Entry => match parse_vis(s, v) {
            Err(e) => Err(e),
            Ok((vis, a)) => match parse_name(s, a) {
                Err(e) => Err(e),
                Ok((name, b)) => {
                    opts.entry = Some((vis, name));
                    Ok(b)
                },
            },
        },
    }
}

/// The value of option `which` after its key: `= value` or `(value)`.
fn parse_option_value(s: &Vec<char>, e: usize, which: OptionKey, opts: &mut Options) -> (r: Result<
    usize,
    Error,
>)
    requires
        e <= s@.len(),
    ensures
        match r {
            Ok(a) => e < a <= s@.len() && option_value_at(s@, e as int, which, options_model(*old(opts)))
                == Ok::<(OptionsModel, int), Error>((options_model(*final(opts)), a as int)),
            Err(x) => x.pos <= s@.len() && option_value_at(
                s@,
                e as int,
                which,
                options_model(*old(opts)),
            ) == Err::<(OptionsModel, int), Error>(x),
        },
{
    let q = skip_trivia(s, e);
    if q < s.len() && s[q] == '=' {
        parse_value(s, q + 1, which, opts)
    } else if q < s.len() && s[q] == '(' {
        let a = match parse_value(s, q + 1, which, opts) {
            Ok(a) => a,
            Err(x) => {
                return Err(x);
            },
        };
        expect(s, a, ')')
    } else {
        err(ErrorKind::Syntax, q)
    }
}

/// The options of one `fsmentry(...)`, from just after its `(` to just after
/// its `)`. A key given twice, across all the attributes, is refused.
pub fn parse_options(s: &Vec<char>, pos: usize, opts: &mut Options, seen: &mut Vec<OptionKey>) -> (r:
    Result<usize, Error>)
    requires
        pos <= s@.len(),
    ensures
        match r {
            Ok(p) => pos < p <= s@.len() && options_from(
                s@,
                pos as int,
                options_model(*old(opts)),
                old(seen)@,
            ) == Ok::<(OptionsModel, Seq<OptionKey>, int), Error>(
                (options_model(*final(opts)), final(seen)@, p as int),
            ),
            Err(e) => e.pos <= s@.len() && options_from(
                s@,
                pos as int,
                options_model(*old(opts)),
                old(seen)@,
            ) == Err::<(OptionsModel, Seq<OptionKey>, int), Error>(e),
        },
{
    let ghost o0 = options_model(*opts);
    let ghost seen0 = seen@;
    let mut p = pos;
    loop
        invariant
            pos <= p <= s@.len(),
            o0 == options_model(*old(opts)),
            seen0 == old(seen)@,
            options_from(s@, pos as int, o0, seen0) == options_from(
                s@,
                p as int,
                options_model(*opts),
                seen@,
            ),
        decreases s@.len() - p,
    {
        let ghost om = options_model(*opts);
        let k = skip_trivia(s, p);
        if k < s.len() && s[k] == ')' {
            proof {
                assert(options_from(s@, p as int, om, seen@) == Ok::<
                    (OptionsModel, Seq<OptionKey>, int),
                    Error,
                >((om, seen@, k + 1)));
            }
            return Ok(k + 1);
        }
        let (key, e) = match parse_word(s, k) {
            Some(x) => x,
            None => {
                return err(ErrorKind::Syntax, k);
            },
        };
        let which = match option_key(&key) {
            Some(w) => w,
            None => {
                return err(ErrorKind::UnknownOption, k);
            },
        };
        if has_key(seen, which) {
            return err(ErrorKind::DuplicateOption, k);
        }
        let after = match parse_option_value(s, e, which, opts) {
            Ok(a) => a,
            Err(x) => {
                proof {
                    assert(option_value_at(s@, e as int, which, om) == Err::<(OptionsModel, int), Error>(
                        x,
                    ));
                }
                return Err(x);
            },
        };
        seen.push(which);
        let c = skip_trivia(s, after);
        if c < s.len() && s[c] == ',' {
            p = c + 1;
        } else if c < s.len() && s[c] == ')' {
            return Ok(c + 1);
        } else {
            return err(ErrorKind::Syntax, c);
        }
    }
}

/// The statements from `cur` up to the closing `}`, after which only trivia
/// may follow.
pub open spec fn stmts_from(s: Seq<char>, cur: int) -> Result<Seq<StmtModel>, Error>
    decreases s.len() - cur,
{
    let c = trivia_end(s, cur);
    if at(s, c, '}') {
        let e = trivia_end(s, c + 1);
        if e < s.len() {
            syntax_error(e)
        } else {
            Ok(Seq::empty())
        }
    } else {
        match stmt_at(s, cur) {
            Err(e) => Err(e),
            Ok((st, e)) => if cur < e <= s.len() {
                match stmts_from(s, e) {
                    Ok(rest) => Ok(seq![st] + rest),
                    Err(x) => Err(x),
                }
            } else {
                syntax_error(e)
            },
        }
    }
}

pub open spec fn stmt_models(v: Seq<Stmt>) -> Seq<StmtModel> {
    v.map_values(|st: Stmt| stmt_model(st))
}

pub open spec fn prepend_stmts(xs: Seq<StmtModel>, r: Result<Seq<StmtModel>, Error>) -> Result<
    Seq<StmtModel>,
    Error,
> {
    match r {
        Ok(rest) => Ok(xs + rest),
        Err(e) => Err(e),
    }
}

/// The offset of the `]` that closes an attribute, scanning from `q` at
/// bracket depth `depth`; a failure gives the offset where scanning stopped.
pub open spec fn attr_close(s: Seq<char>, q: int, depth: nat) -> Result<int, int>
    decreases s.len() - q,
{
    if !(0 <= q < s.len()) {
        Err(q)
    } else if s[q] == ']' && depth == 0 {
        Ok(q)
    } else if opens(s[q]) {
        attr_close(s, q + 1, depth + 1)
    } else if closes(s[q]) {
        if depth == 0 {
            Err(q)
        } else {
            attr_close(s, q + 1, (depth - 1) as nat)
        }
    } else {
        attr_close(s, q + 1, depth)
    }
}

/// The offset of the `>` that closes generic parameters, scanning from `q`
/// at angle depth `depth`; the `>` of `->` does not count.
pub open spec fn angle_close(s: Seq<char>, q: int, depth: nat) -> Result<int, int>
    decreases s.len() - q,
{
    if !(0 <= q < s.len()) {
        Err(q)
    } else if s[q] == '>' && !(q > 0 && s[q - 1] == '-') {
        if depth == 0 {
            Ok(q)
        } else {
            angle_close(s, q + 1, (depth - 1) as nat)
        }
    } else if s[q] == '<' {
        angle_close(s, q + 1, depth + 1)
    } else {
        angle_close(s, q + 1, depth)
    }
}

/// The offset of the first `{` from `q`.
pub open spec fn brace_from(s: Seq<char>, q: int) -> Result<int, int>
    decreases s.len() - q,
{
    if !(0 <= q < s.len()) {
        Err(q)
    } else if s[q] == '{' {
        Ok(q)
    } else {
        brace_from(s, q + 1)
    }
}

/// Where the options of `fsmentry(...)` start, if the attribute body from
/// `b` is one.
pub open spec fn fsmentry_at(s: Seq<char>, b: int) -> Option<int> {
    match word_at(s, trivia_end(s, b)) {
        Some((w, e)) => {
            let o = trivia_end(s, e);
            if w == "fsmentry"@ && at(s, o, '(') {
                Some(o + 1)
            } else {
                None
            }
        },
        None => None,
    }
}

/// The attributes from `p`, each followed by trivia: `#[fsmentry(...)]`
/// sets options, any other attribute is kept as written.
pub open spec fn attrs_from(
    s: Seq<char>,
    p: int,
    o: OptionsModel,
    seen: Seq<OptionKey>,
    attrs: Seq<Seq<char>>,
) -> Result<(OptionsModel, Seq<Seq<char>>, int), Error>
    decreases s.len() - p,
{
    if at(s, p, '#') {
        match expect_at(s, p + 1, '[') {
            Err(e) => Err(e),
            Ok(b) => match fsmentry_at(s, b) {
                Some(q) => match options_from(s, q, o, seen) {
                    Err(e) => Err(e),
                    Ok((o2, seen2, c)) => match expect_at(s, c, ']') {
                        Err(e) => Err(e),
                        Ok(d) => {
                            let t = trivia_end(s, d);
                            if p < t <= s.len() {
                                attrs_from(s, t, o2, seen2, attrs)
                            } else {
                                syntax_error(t)
                            }
                        },
                    },
                },
                None => match attr_close(s, b, 0) {
                    Err(x) => syntax_error(x),
                    Ok(c) => {
                        let t = trivia_end(s, c + 1);
                        if p < t <= s.len() {
                            attrs_from(s, t, o, seen, attrs.push(s.subrange(b, c)))
                        } else {
                            syntax_error(t)
                        }
                    },
                },
            },
        }
    } else {
        Ok((o, attrs, p))
    }
}

/// The generic parameters after trivia from `n`, brackets included, and
/// where they end; nothing where no `<` follows.
pub open spec fn generics_at(s: Seq<char>, n: int) -> Result<(Seq<char>, int), Error> {
    let g = trivia_end(s, n);
    if at(s, g, '<') {
        match angle_close(s, g + 1, 0) {
            Err(x) => syntax_error(x),
            Ok(e) => Ok((s.subrange(g, e + 1), e + 1)),
        }
    } else {
        Ok((Seq::empty(), n))
    }
}

/// A `where` clause after trivia from `n`, up to the `{` of the body;
/// nothing where no `where` follows.
pub open spec fn where_at(s: Seq<char>, n: int) -> Result<(Seq<char>, int), Error> {
    let w = trivia_end(s, n);
    match word_at(s, w) {
        Some((kw, _)) => if kw == "where"@ {
            match brace_from(s, w) {
                Err(x) => syntax_error(x),
                Ok(b) => Ok((s.subrange(w, b), b)),
            }
        } else {
            Ok((Seq::empty(), n))
        },
        None => Ok((Seq::empty(), n)),
    }
}

/// A machine description, as plain values.
pub struct MachineModel {
    pub doc: Seq<Seq<char>>,
    pub attrs: Seq<Seq<char>>,
    pub options: OptionsModel,
    pub vis: Seq<char>,
    pub name: Seq<char>,
    pub name_pos: int,
    pub generics: Seq<char>,
    pub where_clause: Seq<char>,
    pub stmts: Seq<StmtModel>,
}

/// Skip the keyword `enum` after trivia from `v`, if it is there.
pub open spec fn skip_enum(s: Seq<char>, v: int) -> int {
    match word_at(s, trivia_end(s, v)) {
        Some((kw, e)) => if kw == "enum"@ {
            e
        } else {
            v
        },
        None => v,
    }
}

/// The machine that a text describes, or the first failure.
pub open spec fn machine_at(s: Seq<char>) -> Result<MachineModel, Error> {
    let (doc, p) = docs_from(s, 0);
    match attrs_from(s, p, default_options(), Seq::empty(), Seq::empty()) {
        Err(e) => Err(e),
        Ok((options, attrs, p2)) => match vis_at(s, p2) {
            Err(e) => Err(e),
            Ok((vis, v)) => match name_at(s, skip_enum(s, v)) {
                Err(e) => Err(e),
                Ok((name, n)) => match generics_at(s, n) {
                    Err(e) => Err(e),
                    Ok((generics, g)) => match where_at(s, g) {
                        Err(e) => Err(e),
                        Ok((where_clause, w)) => match expect_at(s, w, '{') {
                            Err(e) => Err(e),
                            Ok(b) => match stmts_from(s, b) {
                                Err(e) => Err(e),
                                Ok(stmts) => Ok(
                                    MachineModel {
                                        doc,
                                        attrs,
                                        options,
                                        vis,
                                        name,
                                        name_pos: trivia_end(s, skip_enum(s, v)),
                                        generics,
                                        where_clause,
                                        stmts,
                                    },
                                ),
                            },
                        },
                    },
                },
            },
        },
    }
}

/// A whole machine description.
pub struct Machine {
    pub doc: Vec<Vec<char>>,
    /// Attributes other than the options, as written between `#[` and `]`.
    pub attrs: Vec<Vec<char>>,
    pub options: Options,
    pub vis: Vec<char>,
    pub name: Vec<char>,
    /// Where the name starts, which failures of the whole machine point at.
    pub name_pos: usize,
    /// The generic parameters as written, brackets included; empty without any.
    pub generics: Vec<char>,
    /// The `where` clause as written; empty without one.
    pub where_clause: Vec<char>,
    pub stmts: Vec<Stmt>,
}

/// What a scan looks for.
pub enum ScanKind {
    /// The `]` that closes an attribute.
    Attribute,
    /// The `>` that closes generic parameters.
    Angle,
    /// The next `{`.
    Brace,
}

pub open spec fn scan_spec(s: Seq<char>, q: int, k: ScanKind) -> Result<int, int> {
    match k {
        ScanKind::Attribute => attr_close(s, q, 0),
        ScanKind::Angle => angle_close(s, q, 0),
        ScanKind::Brace => brace_from(s, q),
    }
}

pub open spec fn scan_step(s: Seq<char>, q: int, depth: nat, k: ScanKind) -> Result<int, int> {
    match k {
        ScanKind::Attribute => attr_close(s, q, depth),
        ScanKind::Angle => angle_close(s, q, depth),
        ScanKind::Brace => brace_from(s, q),
    }
}

/// Scan from `q` for the end that `k` names.
pub fn scan_close(s: &Vec<char>, q: usize, k: ScanKind) -> (r: Result<usize, usize>)
    requires
        q <= s@.len(),
    ensures
        match r {
            Ok(e) => q <= e < s@.len() && scan_spec(s@, q as int, k) == Ok::<int, int>(e as int),
            Err(x) => x <= s@.len() && scan_spec(s@, q as int, k) == Err::<int, int>(x as int),
        },
{
    let mut depth: usize = 0;
    let mut i = q;
    loop
        invariant
            q <= i <= s@.len(),
            depth <= i,
            scan_spec(s@, q as int, k) == scan_step(s@, i as int, depth as nat, k),
        decreases s@.len() - i,
    {
        if i >= s.len() {
            return Err(i);
        }
        let c = s[i];
        match k {
            ScanKind::Attribute => {
                if c == ']' && depth == 0 {
                    return Ok(i);
                } else if c == '(' || c == '[' || c == '{' {
                    depth = depth + 1;
                } else if c == ')' || c == ']' || c == '}' {
                    if depth == 0 {
                        return Err(i);
                    }
                    depth = depth - 1;
                }
            },
            ScanKind::Angle => {
                if c == '>' && !(i > 0 && s[i - 1] == '-') {
                    if depth == 0 {
                        return Ok(i);
                    }
                    depth = depth - 1;
                } else if c == '<' {
                    depth = depth + 1;
                }
            },
            ScanKind::Brace => {
                if c == '{' {
                    return Ok(i);
                }
            },
        }
        i = i + 1;
    }
}

/// The characters of `s` from `a` to `b`.
pub fn copy_range(s: &Vec<char>, a: usize, b: usize) -> (r: Vec<char>)
    requires
        a <= b <= s@.len(),
    ensures
        r@ == s@.subrange(a as int, b as int),
{
    let mut r: Vec<char> = Vec::new();
    let mut i = a;
    while i < b
        invariant
            a <= i <= b <= s@.len(),
            r@ == s@.subrange(a as int, i as int),
        decreases b - i,
    {
        r.push(s[i]);
        i = i + 1;
        proof {
            assert(r@ =~= s@.subrange(a as int, i as int));
        }
    }
    r
}

/// Where the options start, if the attribute body from `b` is `fsmentry(...)`.
fn fsmentry_start(s: &Vec<char>, b: usize) -> (r: Option<usize>)
    requires
        b <= s@.len(),
    ensures
        match r {
            Some(q) => fsmentry_at(s@, b as int) == Some(q as int) && b < q <= s@.len(),
            None => fsmentry_at(s@, b as int) is None,
        },
{
    let k = skip_trivia(s, b);
    match parse_word(s, k) {
        Some((w, e)) => {
            let o = skip_trivia(s, e);
            if chars_are(&w, "fsmentry") && o < s.len() && s[o] == '(' {
                Some(o + 1)
            } else {
                None
            }
        },
        None => None,
    }
}

pub open spec fn machine_model(m: Machine) -> MachineModel {
    MachineModel {
        doc: crate::graph::lines(m.doc@),
        attrs: crate::graph::lines(m.attrs@),
        options: options_model(m.options),
        vis: m.vis@,
        name: m.name@,
        name_pos: m.name_pos as int,
        generics: m.generics@,
        where_clause: m.where_clause@,
        stmts: stmt_models(m.stmts@),
    }
}

/// Read a machine description, exactly as `machine_at` describes it. Every
/// statement read satisfies `stmt_wf`, and the machine's name is an identifier.
pub fn parse_machine(text: &str) -> (r: Result<Machine, Error>)
    ensures
        match r {
            Ok(m) => rust_ident(m.name@) && forall|i: int|
                0 <= i < m.stmts@.len() ==> stmt_wf(#[trigger] stmt_models(m.stmts@)[i]),
            Err(e) => e.pos <= text@.len(),
        },
        match r {
            Ok(m) => machine_at(text@) == Ok::<MachineModel, Error>(machine_model(m)),
            Err(e) => machine_at(text@) == Err::<MachineModel, Error>(e),
        },
{
    let s = crate::text::chars_of(text);
    let (doc, mut p) = parse_docs(&s, 0);
    let mut options = Options::new();
    let mut seen: Vec<OptionKey> = Vec::new();
    proof {
        assert(options_model(options) == default_options());
        assert(seen@ =~= Seq::<OptionKey>::empty());
    }
    let mut attrs: Vec<Vec<char>> = Vec::new();
    proof {
        assert(crate::graph::lines(attrs@) =~= Seq::<Seq<char>>::empty());
    }
    let ghost p0 = p as int;
    while p < s.len() && s[p] == '#'
        invariant
            p0 <= p <= s@.len(),
            s@ == text@,
            docs_from(s@, 0) == (crate::graph::lines(doc@), p0),
            attrs_from(s@, p0, default_options(), Seq::empty(), Seq::empty()) == attrs_from(
                s@,
                p as int,
                options_model(options),
                seen@,
                crate::graph::lines(attrs@),
            ),
        decreases s@.len() - p,
    {
        let b = match expect(&s, p + 1, '[') {
            Ok(b) => b,
            Err(e) => {
                return Err(e);
            },
        };
        match fsmentry_start(&s, b) {
            Some(q) => {
                let c = match parse_options(&s, q, &mut options, &mut seen) {
                    Ok(c) => c,
                    Err(e) => {
                        return Err(e);
                    },
                };
                let d = match expect(&s, c, ']') {
                    Ok(d) => d,
                    Err(e) => {
                        return Err(e);
                    },
                };
                p = skip_trivia(&s, d);
            },
            None => {
                let c = match scan_close(&s, b, ScanKind::Attribute) {
                    Ok(c) => c,
                    Err(x) => {
                        return err(ErrorKind::Syntax, x);
                    },
                };
                let ghost before = crate::graph::lines(attrs@);
                attrs.push(copy_range(&s, b, c));
                proof {
                    assert(crate::graph::lines(attrs@) =~= before.push(s@.subrange(b as int, c as int)));
                }
                p = skip_trivia(&s, c + 1);
            },
        }
    }
    let (vis, v) = match parse_vis(&s, p) {
        Ok(x) => x,
        Err(e) => {
            return Err(e);
        },
    };
    let w = skip_trivia(&s, v);
    let v = match parse_word(&s, w) {
        Some((kw, e)) => if chars_are(&kw, "enum") {
            e
        } else {
            v
        },
        None => v,
    };
    let name_pos = skip_trivia(&s, v);
    let (name, n) = match parse_name(&s, v) {
        Ok(x) => x,
        Err(e) => {
            return Err(e);
        },
    };
    let gs = skip_trivia(&s, n);
    let (generics, g) = if gs < s.len() && s[gs] == '<' {
        match scan_close(&s, gs + 1, ScanKind::Angle) {
            Ok(e) => (copy_range(&s, gs, e + 1), e + 1),
            Err(x) => {
                return err(ErrorKind::Syntax, x);
            },
        }
    } else {
        (Vec::new(), n)
    };
    let ws = skip_trivia(&s, g);
    let (where_clause, wend) = match parse_word(&s, ws) {
        Some((kw, _)) => if chars_are(&kw, "where") {
            match scan_close(&s, ws, ScanKind::Brace) {
                Ok(e) => (copy_range(&s, ws, e), e),
                Err(x) => {
                    return err(ErrorKind::Syntax, x);
                },
            }
        } else {
            (Vec::new(), g)
        },
        None => (Vec::new(), g),
    };
    proof {
        assert(generics_at(s@, n as int) == Ok::<(Seq<char>, int), Error>((generics@, g as int))) by {
            if !(gs < s@.len() && s@[gs as int] == '<') {
                assert(generics@ =~= Seq::<char>::empty());
            }
        }
        assert(where_at(s@, g as int) == Ok::<(Seq<char>, int), Error>(
            (where_clause@, wend as int),
        )) by {
            if where_clause@.len() == 0 && wend == g {
                assert(where_clause@ =~= Seq::<char>::empty());
            }
        }
    }
    let mut cur = match expect(&s, wend, '{') {
        Ok(c) => c,
        Err(e) => {
            return Err(e);
        },
    };
    let mut stmts: Vec<Stmt> = Vec::new();
    let ghost body = cur as int;
    proof {
        assert(stmt_models(stmts@) =~= Seq::<StmtModel>::empty());
        assert(prepend_stmts(Seq::<StmtModel>::empty(), stmts_from(s@, body)) == stmts_from(s@, body))
            by {
            match stmts_from(s@, body) {
                Ok(rest) => {
                    assert(Seq::<StmtModel>::empty() + rest =~= rest);
                },
                Err(e) => {},
            }
        }
    }
    loop
        invariant
            cur <= s@.len(),
            0 <= body <= s@.len(),
            s@ == text@,
            stmts_from(s@, body) == prepend_stmts(stmt_models(stmts@), stmts_from(s@, cur as int)),
            machine_at(s@) == match stmts_from(s@, body) {
                Err(e) => Err(e),
                Ok(st) => Ok::<MachineModel, Error>(
                    MachineModel {
                        doc: crate::graph::lines(doc@),
                        attrs: crate::graph::lines(attrs@),
                        options: options_model(options),
                        vis: vis@,
                        name: name@,
                        name_pos: name_pos as int,
                        generics: generics@,
                        where_clause: where_clause@,
                        stmts: st,
                    },
                ),
            },
            rust_ident(name@),
            forall|i: int| 0 <= i < stmts@.len() ==> stmt_wf(#[trigger] stmt_models(stmts@)[i]),
        decreases s@.len() - cur,
    {
        let c = skip_trivia(&s, cur);
        if c < s.len() && s[c] == '}' {
            let end = skip_trivia(&s, c + 1);
            if end < s.len() {
                return err(ErrorKind::Syntax, end);
            }
            proof {
                assert(stmt_models(stmts@) + Seq::<StmtModel>::empty() =~= stmt_models(stmts@));
            }
            return Ok(
                Machine { doc, attrs, options, vis, name, name_pos, generics, where_clause, stmts },
            );
        }
        let (st, e) = match parse_stmt(&s, cur) {
            Ok(x) => x,
            Err(x) => {
                return Err(x);
            },
        };
        let ghost before = stmt_models(stmts@);
        stmts.push(st);
        proof {
            assert(stmt_models(stmts@) =~= before.push(stmt_model(st)));
            assert forall|rest: Seq<StmtModel>| before + (seq![stmt_model(st)] + rest) == stmt_models(
                stmts@,
            ) + rest by {
                assert(before + (seq![stmt_model(st)] + rest) =~= stmt_models(stmts@) + rest);
            }
        }
        cur = e;
    }
}

} // verus!
