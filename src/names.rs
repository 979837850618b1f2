//! Rust identifiers and payload types, as syn reads them, and the method
//! names derived from node names.
use vstd::prelude::*;
use crate::text::copy_chars;

verus! {

/// Whether syn reads the text as a single identifier that is not a keyword
/// (raw identifiers such as `r#type` included).
pub uninterp spec fn rust_ident(s: Seq<char>) -> bool;

/// The tokens of the text read as one Rust type, printed with canonical
/// spacing; `None` where the text is not one type.
pub uninterp spec fn type_tokens(s: Seq<char>) -> Option<Seq<char>>;

/// The generic parameters with their bounds, and the generic arguments that
/// name a type with those parameters, as syn prints them; `None` where the
/// text is not a list of generic parameters.
pub uninterp spec fn generics_split(s: Seq<char>) -> Option<(Seq<char>, Seq<char>)>;

/// Relies on `syn::parse_str::<syn::Generics>`, `syn::Generics::split_for_impl`
/// and the printing of `quote::ToTokens`: the parameters for an `impl`, and
/// the arguments for the type.
#[verifier::external_body]
pub(crate) fn split_generics(s: &Vec<char>) -> (r: Option<(Vec<char>, Vec<char>)>)
    ensures
        match r {
            Some((p, a)) => generics_split(s@) == Some((p@, a@)),
            None => generics_split(s@) is None,
        },
{
    let text: String = s.iter().collect();
    let generics: syn::Generics = syn::parse_str(&text).ok()?;
    let (params, args, _) = generics.split_for_impl();
    let params = quote::ToTokens::to_token_stream(&params).to_string();
    let args = quote::ToTokens::to_token_stream(&args).to_string();
    Some((params.chars().collect(), args.chars().collect()))
}

/// Whether syn reads the text as one `where` clause.
pub uninterp spec fn rust_where(s: Seq<char>) -> bool;

/// Whether syn reads the text as the body of one attribute (a path, a list
/// or a name-value pair).
pub uninterp spec fn rust_meta(s: Seq<char>) -> bool;

/// Relies on `syn::parse_str::<syn::WhereClause>`: whether the text is one
/// `where` clause.
#[verifier::external_body]
pub(crate) fn parses_as_where(s: &Vec<char>) -> (r: bool)
    ensures
        r == rust_where(s@),
{
    let text: String = s.iter().collect();
    syn::parse_str::<syn::WhereClause>(&text).is_ok()
}

/// Relies on `syn::parse_str::<syn::Meta>`: whether the text is the body of
/// one attribute.
#[verifier::external_body]
pub(crate) fn parses_as_meta(s: &Vec<char>) -> (r: bool)
    ensures
        r == rust_meta(s@),
{
    let text: String = s.iter().collect();
    syn::parse_str::<syn::Meta>(&text).is_ok()
}

/// Relies on `syn::parse_str::<syn::Ident>`: accepts exactly one identifier
/// that is not a keyword or `_`. An empty text holds no identifier.
#[verifier::external_body]
pub(crate) fn parses_as_ident(s: &Vec<char>) -> (r: bool)
    ensures
        r == rust_ident(s@),
        s@.len() == 0 ==> !r,
{
    let text: String = s.iter().collect();
    syn::parse_str::<syn::Ident>(&text).is_ok()
}

/// Relies on `syn::parse_str::<syn::Type>`, then on `quote::ToTokens` and
/// `proc_macro2::TokenStream`'s `Display` to print the parsed type's tokens.
#[verifier::external_body]
pub(crate) fn canonical_type(s: &Vec<char>) -> (r: Option<Vec<char>>)
    ensures
        match r {
            Some(t) => type_tokens(s@) == Some(t@),
            None => type_tokens(s@) is None,
        },
{
    let text: String = s.iter().collect();
    syn::parse_str::<syn::Type>(&text)
        .ok()
        .map(|t| quote::ToTokens::to_token_stream(&t).to_string().chars().collect())
}

pub open spec fn is_upper(c: char) -> bool {
    'A' <= c && c <= 'Z'
}

pub open spec fn lower(c: char) -> char {
    if is_upper(c) {
        ((c as u32) + 32) as u8 as char
    } else {
        c
    }
}

/// What the character at `i` becomes in snake case: an upper case letter
/// after the first character is preceded by an underscore, and every ASCII
/// letter is lowered.
pub open spec fn snake_piece(s: Seq<char>, i: int) -> Seq<char> {
    if i > 0 && is_upper(s[i]) {
        seq!['_', lower(s[i])]
    } else {
        seq![lower(s[i])]
    }
}

pub open spec fn snake_prefix(s: Seq<char>, n: int) -> Seq<char>
    decreases n,
{
    if n <= 0 {
        Seq::empty()
    } else {
        snake_prefix(s, n - 1) + snake_piece(s, n - 1)
    }
}

/// `BeautifulBridge` becomes `beautiful_bridge`.
pub open spec fn snake_text(s: Seq<char>) -> Seq<char> {
    snake_prefix(s, s.len() as int)
}

pub open spec fn raw(s: Seq<char>) -> Seq<char> {
    seq!['r', '#'] + s
}

/// A name made usable as a method name: itself where it is an identifier,
/// escaped as a raw identifier where it is a keyword, and followed by an
/// underscore where even the raw form is refused (`crate`, `self`, `super`,
/// `Self`); none where all three are refused.
pub open spec fn escaped(s: Seq<char>) -> Option<Seq<char>> {
    if rust_ident(s) {
        Some(s)
    } else if rust_ident(raw(s)) {
        Some(raw(s))
    } else if rust_ident(s.push('_')) {
        Some(s.push('_'))
    } else {
        None
    }
}

/// The method name of a transition into node `to` that names no method of
/// its own.
pub open spec fn derived_method(to: Seq<char>, rename: bool) -> Option<Seq<char>> {
    if rename {
        escaped(snake_text(to))
    } else {
        escaped(to)
    }
}

fn lower_char(c: char) -> (r: char)
    ensures
        r == lower(c),
{
    if 'A' <= c && c <= 'Z' {
        ((c as u32) + 32) as u8 as char
    } else {
        c
    }
}

/// The snake case form of a name.
pub fn snake_case(s: &Vec<char>) -> (r: Vec<char>)
    ensures
        r@ == snake_text(s@),
{
    let mut r: Vec<char> = Vec::new();
    let mut i: usize = 0;
    while i < s.len()
        invariant
            i <= s@.len(),
            r@ == snake_prefix(s@, i as int),
        decreases s@.len() - i,
    {
        let c = s[i];
        if i > 0 && 'A' <= c && c <= 'Z' {
            r.push('_');
        }
        r.push(lower_char(c));
        proof {
            assert(r@ =~= snake_prefix(s@, i as int) + snake_piece(s@, i as int));
        }
        i = i + 1;
    }
    r
}

/// The name itself where syn takes it as an identifier, else its raw form
/// where syn takes that, else the name followed by `_` where syn takes that,
/// else none.
pub fn escape(s: &Vec<char>) -> (r: Option<Vec<char>>)
    ensures
        match r {
            Some(t) => escaped(s@) == Some(t@),
            None => escaped(s@) is None,
        },
{
    if parses_as_ident(s) {
        return Some(copy_chars(s));
    }
    let mut raw_name: Vec<char> = Vec::new();
    raw_name.push('r');
    raw_name.push('#');
    crate::text::push_chars(&mut raw_name, s);
    proof {
        assert(raw_name@ =~= raw(s@));
    }
    if parses_as_ident(&raw_name) {
        return Some(raw_name);
    }
    let mut padded = copy_chars(s);
    padded.push('_');
    if parses_as_ident(&padded) {
        Some(padded)
    } else {
        None
    }
}

/// The method name of a transition into `to`, with renaming into snake case
/// or without.
pub fn method_name_for(to: &Vec<char>, rename: bool) -> (r: Option<Vec<char>>)
    ensures
        match r {
            Some(t) => derived_method(to@, rename) == Some(t@),
            None => derived_method(to@, rename) is None,
        },
{
    if rename {
        let s = snake_case(to);
        escape(&s)
    } else {
        escape(to)
    }
}

} // verus!
