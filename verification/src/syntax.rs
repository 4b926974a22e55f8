//! Questions put to `syn` and `proc_macro2` about fragments of Rust source.
//!
//! Each answer is a function of the fragment alone; it is named here and not
//! restated, since the Rust grammar behind it takes pages to write down.
//!
//! Every call is made with proc-macro2's own lexer and spans
//! (`proc_macro2::fallback::force`, undone by `unforce` right after), which
//! it uses anyway outside a procedural macro: inside one it would lex with
//! the compiler and give spans without line and column on stable compilers,
//! so that the answers would depend on where the code runs. The switch is
//! one setting for the whole process: these calls assume that no other
//! thread parses Rust at the same moment.
use vstd::prelude::*;

verus! {

/// Whether `syn::parse_str::<syn::Expr>` accepts the text.
pub open spec fn syn_expr_ok(text: Seq<char>) -> bool {
    syn_expr_error(text) is None
}

/// Whether `syn::parse_str::<syn::Type>` accepts the text.
pub uninterp spec fn syn_type_ok(text: Seq<char>) -> bool;

/// Whether `syn::parse_str::<syn::Ident>` accepts the text.
pub open spec fn syn_ident_ok(text: Seq<char>) -> bool {
    syn_ident_error(text) is None
}

/// Whether `syn::parse_str::<syn::Member>` accepts the text.
pub uninterp spec fn syn_member_ok(text: Seq<char>) -> bool;

/// The error of `syn::parse_str::<syn::Expr>` on the text, rendered with
/// `to_string`, or `None` when the text parses.
pub uninterp spec fn syn_expr_error(text: Seq<char>) -> Option<Seq<char>>;

/// The error of `syn::parse_str::<syn::Ident>` on the text, rendered with
/// `to_string`, or `None` when the text parses.
pub uninterp spec fn syn_ident_error(text: Seq<char>) -> Option<Seq<char>>;

/// The error of `syn::parse_str::<syn::Block>` on the text: the line and
/// column where its span starts, and its message; `None` when the text parses.
pub uninterp spec fn syn_block_error(text: Seq<char>) -> Option<(int, int, Seq<char>)>;

/// The error of `TokenStream::from_str` on the text, rendered with
/// `to_string`, or `None` when the text lexes.
pub uninterp spec fn lex_error(text: Seq<char>) -> Option<Seq<char>>;

/// The `Debug` rendering of a string (`format!("{:?}", s)`).
pub uninterp spec fn debug_str(text: Seq<char>) -> Seq<char>;

/// Calls `syn::parse_str::<syn::Type>`; true when it returns `Ok`.
#[verifier::external_body]
pub(crate) fn parses_as_type(text: &str) -> (r: bool)
    ensures
        r == syn_type_ok(text@),
{
    proc_macro2::fallback::force();
    let r = syn::parse_str::<syn::Type>(text).is_ok();
    proc_macro2::fallback::unforce();
    r
}

/// Calls `syn::parse_str::<syn::Member>`; true when it returns `Ok`.
#[verifier::external_body]
pub(crate) fn parses_as_member(text: &str) -> (r: bool)
    ensures
        r == syn_member_ok(text@),
{
    proc_macro2::fallback::force();
    let r = syn::parse_str::<syn::Member>(text).is_ok();
    proc_macro2::fallback::unforce();
    r
}

/// Calls `syn::parse_str::<syn::Expr>` and hands back its error message.
#[verifier::external_body]
pub(crate) fn expr_error(text: &str) -> (r: Option<String>)
    ensures
        r.deep_view() == syn_expr_error(text@),
{
    proc_macro2::fallback::force();
    let r = syn::parse_str::<syn::Expr>(text);
    proc_macro2::fallback::unforce();
    match r {
        Ok(_) => None,
        Err(e) => Some(e.to_string()),
    }
}

/// Calls `syn::parse_str::<syn::Ident>` and hands back its error message.
#[verifier::external_body]
pub(crate) fn ident_error(text: &str) -> (r: Option<String>)
    ensures
        r.deep_view() == syn_ident_error(text@),
{
    proc_macro2::fallback::force();
    let r = syn::parse_str::<syn::Ident>(text);
    proc_macro2::fallback::unforce();
    match r {
        Ok(_) => None,
        Err(e) => Some(e.to_string()),
    }
}

/// Calls `syn::parse_str::<syn::Block>`; on error, the start of the error's
/// span (`Span::start`, with proc-macro2's `span-locations`) and its message.
#[verifier::external_body]
pub(crate) fn block_error(text: &str) -> (r: Option<(usize, usize, String)>)
    ensures
        match r {
            None => syn_block_error(text@) is None,
            Some((line, col, msg)) => syn_block_error(text@) == Some(
                (line as int, col as int, msg@),
            ),
        },
{
    proc_macro2::fallback::force();
    let r = syn::parse_str::<syn::Block>(text);
    let r = match r {
        Ok(_) => None,
        Err(e) => {
            let start = e.span().start();
            Some((start.line, start.column, e.to_string()))
        },
    };
    proc_macro2::fallback::unforce();
    r
}

/// Calls `proc_macro2::TokenStream::from_str` and hands back its error message.
#[verifier::external_body]
pub(crate) fn lex_check(text: &str) -> (r: Option<String>)
    ensures
        r.deep_view() == lex_error(text@),
{
    proc_macro2::fallback::force();
    let r = <proc_macro2::TokenStream as std::str::FromStr>::from_str(text);
    proc_macro2::fallback::unforce();
    match r {
        Ok(_) => None,
        Err(e) => Some(e.to_string()),
    }
}

/// `format!("{:?}", text)`.
#[verifier::external_body]
pub(crate) fn debug_quote(text: &str) -> (r: String)
    ensures
        r@ == debug_str(text@),
{
    format!("{:?}", text)
}

} // verus!
