//! Recognisers for the lexical pieces of the template language: whitespace,
//! identifiers, quoted strings, bracketed runs, statement heads, numbers.
//!
//! Each recogniser is given as a spec function from the text and a start
//! position to the end position of what it recognises (`None`: nothing there),
//! and an executable function proved to compute it.
use vstd::prelude::*;
use crate::classes::{
    Class, ascii_alpha, ascii_upper, char_at, in_class, is_alphabetic, is_char_at,
    lemma_run_end, run, run_end, unicode_alphabetic,
};
use crate::syntax::{ident_error, syn_ident_ok};
use crate::text::string_between;

verus! {

/// The two identifier grammars in use: files read by the derive macro accept
/// a letter or `_` followed by alphanumerics and `_`; the inline macro accepts
/// any run of alphanumerics and `_` that `syn` reads as an identifier.
#[derive(Clone, Copy, PartialEq, Eq, Structural)]
pub enum Dialect {
    File,
    Macro,
}

pub open spec fn opt_pos(r: Option<usize>) -> Option<int> {
    match r {
        Some(e) => Some(e as int),
        None => None,
    }
}

/// Whitespace (`multispace0`): end of the run of ' ', '\t', '\r', '\n' at `i`.
pub open spec fn ws(s: Seq<char>, i: int) -> int {
    run_end(s, i, Class::Space)
}

pub fn skip_ws(s: &[char], i: usize) -> (r: usize)
    requires
        i <= s@.len(),
    ensures
        r == ws(s@, i as int),
        i <= r <= s@.len(),
{
    run(s, i, Class::Space)
}

/// A Rust identifier at `i`.
pub open spec fn ident(s: Seq<char>, i: int, d: Dialect) -> Option<int> {
    match d {
        Dialect::File => if 0 <= i < s.len() && (unicode_alphabetic(s[i]) || s[i] == '_') {
            Some(run_end(s, i + 1, Class::IdentTail))
        } else {
            None
        },
        Dialect::Macro => {
            let e = run_end(s, i, Class::IdentTail);
            if e > i && syn_ident_ok(s.subrange(i, e)) {
                Some(e)
            } else {
                None
            }
        },
    }
}

pub proof fn lemma_ident(s: Seq<char>, i: int, d: Dialect)
    requires
        0 <= i <= s.len(),
    ensures
        ident(s, i, d) matches Some(e) ==> i < e <= s.len(),
{
    if i < s.len() {
        lemma_run_end(s, i + 1, Class::IdentTail);
    }
    lemma_run_end(s, i, Class::IdentTail);
}

pub fn rust_identifier(s: &[char], i: usize, d: Dialect) -> (r: Option<usize>)
    requires
        i <= s@.len(),
    ensures
        opt_pos(r) == ident(s@, i as int, d),
        r matches Some(e) ==> i < e <= s@.len(),
{
    proof { lemma_ident(s@, i as int, d); }
    match d {
        Dialect::File => {
            if i < s.len() && (s[i] == '_' || is_alphabetic(s[i])) {
                Some(run(s, i + 1, Class::IdentTail))
            } else {
                None
            }
        },
        Dialect::Macro => {
            let e = run(s, i, Class::IdentTail);
            if e > i {
                let t = string_between(s, i, e);
                if ident_error(t.as_str()).is_none() {
                    return Some(e);
                }
            }
            None
        },
    }
}

/// A component tag name: an ASCII capital followed by ASCII alphanumerics.
pub open spec fn tag_ident(s: Seq<char>, i: int) -> Option<int> {
    if 0 <= i < s.len() && ascii_upper(s[i]) {
        Some(run_end(s, i + 1, Class::AsciiAlnum))
    } else {
        None
    }
}

pub fn component_tag_identifier(s: &[char], i: usize) -> (r: Option<usize>)
    requires
        i <= s@.len(),
    ensures
        opt_pos(r) == tag_ident(s@, i as int),
        r matches Some(e) ==> i < e <= s@.len(),
{
    if i < s.len() && 'A' <= s[i] && s[i] <= 'Z' {
        Some(run(s, i + 1, Class::AsciiAlnum))
    } else {
        None
    }
}

/// A component attribute name: an ASCII letter or `_`, then ASCII
/// alphanumerics and `_`.
pub open spec fn attr_name(s: Seq<char>, i: int) -> Option<int> {
    if 0 <= i < s.len() && (ascii_alpha(s[i]) || s[i] == '_') {
        Some(run_end(s, i + 1, Class::AsciiWord))
    } else {
        None
    }
}

pub fn attribute_name(s: &[char], i: usize) -> (r: Option<usize>)
    requires
        i <= s@.len(),
    ensures
        opt_pos(r) == attr_name(s@, i as int),
        r matches Some(e) ==> i < e <= s@.len(),
{
    if i < s.len() && (('A' <= s[i] && s[i] <= 'Z') || ('a' <= s[i] && s[i] <= 'z') || s[i]
        == '_') {
        Some(run(s, i + 1, Class::AsciiWord))
    } else {
        None
    }
}

/// The rest of a quoted string whose opening quote `q` was before `k`:
/// escapes (`\` and any character) and characters other than `q` and `\`,
/// then the closing `q`.
pub open spec fn quote_rest(s: Seq<char>, k: int, q: char) -> Option<int>
    decreases s.len() - k,
{
    if k < 0 || k >= s.len() {
        None
    } else if s[k] == '\\' {
        if k + 1 < s.len() {
            quote_rest(s, k + 2, q)
        } else {
            None
        }
    } else if s[k] == q {
        Some(k + 1)
    } else {
        quote_rest(s, k + 1, q)
    }
}

pub proof fn lemma_quote_rest(s: Seq<char>, k: int, q: char)
    requires
        0 <= k,
    ensures
        quote_rest(s, k, q) matches Some(e) ==> k < e <= s.len(),
    decreases s.len() - k,
{
    if 0 <= k < s.len() {
        if s[k] == '\\' {
            if k + 1 < s.len() {
                lemma_quote_rest(s, k + 2, q);
            }
        } else if s[k] != q {
            lemma_quote_rest(s, k + 1, q);
        }
    }
}

pub fn scan_quote_rest(s: &[char], k: usize, q: char) -> (r: Option<usize>)
    requires
        k <= s@.len(),
    ensures
        opt_pos(r) == quote_rest(s@, k as int, q),
        r matches Some(e) ==> k < e <= s@.len(),
{
    proof { lemma_quote_rest(s@, k as int, q); }
    let mut j = k;
    while j < s.len()
        invariant
            k <= j <= s@.len(),
            s@.len() == s.len(),
            quote_rest(s@, j as int, q) == quote_rest(s@, k as int, q),
        decreases s@.len() - j,
    {
        if s[j] == '\\' {
            if j + 1 < s.len() {
                j = j + 2;
            } else {
                return None;
            }
        } else if s[j] == q {
            return Some(j + 1);
        } else {
            j = j + 1;
        }
    }
    None
}

/// A string in double or single quotes (`string_line`).
pub open spec fn quoted(s: Seq<char>, i: int) -> Option<int> {
    if char_at(s, i, '"') {
        quote_rest(s, i + 1, '"')
    } else if char_at(s, i, '\'') {
        quote_rest(s, i + 1, '\'')
    } else {
        None
    }
}

pub fn string_line(s: &[char], i: usize) -> (r: Option<usize>)
    requires
        i <= s@.len(),
    ensures
        opt_pos(r) == quoted(s@, i as int),
        r matches Some(e) ==> i < e <= s@.len(),
{
    let _len = s.len();
    if is_char_at(s, i, '"') {
        scan_quote_rest(s, i + 1, '"')
    } else if is_char_at(s, i, '\'') {
        scan_quote_rest(s, i + 1, '\'')
    } else {
        None
    }
}


/// The head of a statement (`stmt_head`): whitespace (at least one), then
/// at least one character other than `{`, `@` and `}`, running up to the
/// first of those.
pub open spec fn stmt_head(s: Seq<char>, i: int) -> Option<int> {
    let w = ws(s, i);
    let e = run_end(s, w, Class::StmtHead);
    if w > i && e > w {
        Some(e)
    } else {
        None
    }
}

pub fn scan_stmt_head(s: &[char], i: usize) -> (r: Option<usize>)
    requires
        i <= s@.len(),
    ensures
        opt_pos(r) == stmt_head(s@, i as int),
        r matches Some(e) ==> i < e <= s@.len(),
{
    let w = skip_ws(s, i);
    let e = run(s, w, Class::StmtHead);
    if w > i && e > w {
        Some(e)
    } else {
        None
    }
}

/// The closing bracket that matches an opening one, in expressions.
pub open spec fn closer(c: char) -> char {
    if c == '(' {
        ')'
    } else if c == '[' {
        ']'
    } else {
        '}'
    }
}

/// A bracketed group in a parenthesised expression (`nested_expression`):
/// `(`, `[` or `{`, then nested groups and characters other than the
/// matching closer, then the closer.
pub open spec fn group(s: Seq<char>, i: int) -> Option<int>
    decreases s.len() - i, 0int,
{
    if 0 <= i < s.len() && (s[i] == '(' || s[i] == '[' || s[i] == '{') {
        group_rest(s, i + 1, closer(s[i]))
    } else {
        None
    }
}

/// Inside a group whose closer is `c`, from `k`: what follows up to and
/// including the closer.
pub open spec fn group_rest(s: Seq<char>, k: int, c: char) -> Option<int>
    decreases s.len() - k, 1int,
{
    if k < 0 || k > s.len() {
        None
    } else {
        match group(s, k) {
            Some(k2) if k < k2 <= s.len() => group_rest(s, k2, c),
            _ => if k < s.len() && s[k] != c {
                group_rest(s, k + 1, c)
            } else if k < s.len() {
                Some(k + 1)
            } else {
                None
            },
        }
    }
}

pub proof fn lemma_group(s: Seq<char>, i: int)
    requires
        0 <= i,
    ensures
        group(s, i) matches Some(e) ==> i < e <= s.len(),
    decreases s.len() - i, 0int,
{
    if 0 <= i < s.len() && (s[i] == '(' || s[i] == '[' || s[i] == '{') {
        lemma_group_rest(s, i + 1, closer(s[i]));
    }
}

pub proof fn lemma_group_rest(s: Seq<char>, k: int, c: char)
    requires
        0 <= k,
    ensures
        group_rest(s, k, c) matches Some(e) ==> k < e <= s.len(),
    decreases s.len() - k, 1int,
{
    if k <= s.len() {
        match group(s, k) {
            Some(k2) if k < k2 <= s.len() => lemma_group_rest(s, k2, c),
            _ => if k < s.len() && s[k] != c {
                lemma_group_rest(s, k + 1, c);
            },
        }
    }
}

pub fn nested_expression(s: &[char], i: usize) -> (r: Option<usize>)
    requires
        i <= s@.len(),
    ensures
        opt_pos(r) == group(s@, i as int),
        r matches Some(e) ==> i < e <= s@.len(),
    decreases s@.len() - i, 0int,
{
    proof { lemma_group(s@, i as int); }
    let _len = s.len();
    if i < s.len() && (s[i] == '(' || s[i] == '[' || s[i] == '{') {
        let c = if s[i] == '(' {
            ')'
        } else if s[i] == '[' {
            ']'
        } else {
            '}'
        };
        group_tail(s, i + 1, c)
    } else {
        None
    }
}

/// What follows `k` inside a group closed by `c`, up to and including `c`.
pub fn group_tail(s: &[char], k: usize, c: char) -> (r: Option<usize>)
    requires
        k <= s@.len(),
    ensures
        opt_pos(r) == group_rest(s@, k as int, c),
        r matches Some(e) ==> k < e <= s@.len(),
    decreases s@.len() - k, 1int,
{
    proof { lemma_group_rest(s@, k as int, c); }
    let _len = s.len();
    let mut j = k;
    loop
        invariant
            k <= j <= s@.len(),
            s@.len() == s.len(),
            group_rest(s@, j as int, c) == group_rest(s@, k as int, c),
        decreases s@.len() - j,
    {
        match nested_expression(s, j) {
            Some(j2) => {
                j = j2;
            },
            None => {
                if j < s.len() && s[j] != c {
                    j = j + 1;
                } else if j < s.len() {
                    return Some(j + 1);
                } else {
                    return None;
                }
            },
        }
    }
}


/// Where a simple expression must stop (`expression_boundary`): `</`, `<`
/// followed by an ASCII letter, `@`, `{`, or a line ending.
pub open spec fn boundary(s: Seq<char>, k: int) -> bool {
    ||| char_at(s, k, '<') && (char_at(s, k + 1, '/') || (0 <= k + 1 < s.len() && ascii_alpha(
        s[k + 1],
    )))
    ||| char_at(s, k, '@')
    ||| char_at(s, k, '{')
    ||| char_at(s, k, '\n')
    ||| char_at(s, k, '\r') && char_at(s, k + 1, '\n')
}

pub fn expression_boundary(s: &[char], k: usize) -> (r: bool)
    ensures
        r == boundary(s@, k as int),
{
    let _len = s.len();
    if k >= s.len() {
        return false;
    }
    let c = s[k];
    if c == '<' {
        if k + 1 < s.len() {
            let d = s[k + 1];
            if d == '/' || ('A' <= d && d <= 'Z') || ('a' <= d && d <= 'z') {
                return true;
            }
        }
        return false;
    }
    c == '@' || c == '{' || c == '\n' || (c == '\r' && is_char_at(s, k + 1, '\n'))
}

/// One piece inside the brackets of an expression chain (`nested_content`):
/// a bracketed run, a quoted string, or a character that is not a closing
/// bracket and not at a boundary.
pub open spec fn content_piece(s: Seq<char>, k: int) -> Option<int>
    decreases s.len() - k, 0int,
{
    if k < 0 || k >= s.len() {
        None
    } else if s[k] == '(' && content_rest(s, k + 1, ')') is Some {
        content_rest(s, k + 1, ')')
    } else if s[k] == '[' && content_rest(s, k + 1, ']') is Some {
        content_rest(s, k + 1, ']')
    } else if quoted(s, k) is Some {
        quoted(s, k)
    } else if s[k] != ')' && s[k] != ']' && !boundary(s, k) {
        Some(k + 1)
    } else {
        None
    }
}

/// Pieces from `k`, then the closer `c`.
pub open spec fn content_rest(s: Seq<char>, k: int, c: char) -> Option<int>
    decreases s.len() - k, 1int,
{
    if k < 0 || k > s.len() {
        None
    } else {
        match content_piece(s, k) {
            Some(k2) if k < k2 <= s.len() => content_rest(s, k2, c),
            _ => if char_at(s, k, c) {
                Some(k + 1)
            } else {
                None
            },
        }
    }
}

pub proof fn lemma_content_piece(s: Seq<char>, k: int)
    requires
        0 <= k,
    ensures
        content_piece(s, k) matches Some(e) ==> k < e <= s.len(),
    decreases s.len() - k, 0int,
{
    if 0 <= k < s.len() {
        lemma_content_rest(s, k + 1, ')');
        lemma_content_rest(s, k + 1, ']');
        if s[k] == '"' {
            lemma_quote_rest(s, k + 1, '"');
        }
        if s[k] == '\'' {
            lemma_quote_rest(s, k + 1, '\'');
        }
    }
}

pub proof fn lemma_content_rest(s: Seq<char>, k: int, c: char)
    requires
        0 <= k,
    ensures
        content_rest(s, k, c) matches Some(e) ==> k < e <= s.len(),
    decreases s.len() - k, 1int,
{
    if k <= s.len() {
        match content_piece(s, k) {
            Some(k2) if k < k2 <= s.len() => lemma_content_rest(s, k2, c),
            _ => {},
        }
    }
}

pub fn nested_content(s: &[char], k: usize) -> (r: Option<usize>)
    requires
        k <= s@.len(),
    ensures
        opt_pos(r) == content_piece(s@, k as int),
        r matches Some(e) ==> k < e <= s@.len(),
    decreases s@.len() - k, 0int,
{
    proof { lemma_content_piece(s@, k as int); }
    let _len = s.len();
    if k >= s.len() {
        return None;
    }
    if s[k] == '(' {
        if let Some(e) = content_tail(s, k + 1, ')') {
            return Some(e);
        }
    }
    if s[k] == '[' {
        if let Some(e) = content_tail(s, k + 1, ']') {
            return Some(e);
        }
    }
    if let Some(e) = string_line(s, k) {
        return Some(e);
    }
    if s[k] != ')' && s[k] != ']' && !expression_boundary(s, k) {
        Some(k + 1)
    } else {
        None
    }
}

pub fn content_tail(s: &[char], k: usize, c: char) -> (r: Option<usize>)
    requires
        k <= s@.len(),
    ensures
        opt_pos(r) == content_rest(s@, k as int, c),
        r matches Some(e) ==> k < e <= s@.len(),
    decreases s@.len() - k, 1int,
{
    proof { lemma_content_rest(s@, k as int, c); }
    let _len = s.len();
    let mut j = k;
    loop
        invariant
            k <= j <= s@.len(),
            s@.len() == s.len(),
            content_rest(s@, j as int, c) == content_rest(s@, k as int, c),
        decreases s@.len() - j,
    {
        match nested_content(s, j) {
            Some(j2) => {
                j = j2;
            },
            None => {
                if is_char_at(s, j, c) {
                    return Some(j + 1);
                } else {
                    return None;
                }
            },
        }
    }
}

/// One link of an expression chain (`chain_segment`): `&ident`, `.ident`,
/// `::ident`, or a `(...)` or `[...]` run.
pub open spec fn chain_link(s: Seq<char>, k: int, d: Dialect) -> Option<int> {
    if char_at(s, k, '&') || char_at(s, k, '.') {
        ident(s, k + 1, d)
    } else if char_at(s, k, ':') && char_at(s, k + 1, ':') {
        ident(s, k + 2, d)
    } else if char_at(s, k, '(') {
        content_rest(s, k + 1, ')')
    } else if char_at(s, k, '[') {
        content_rest(s, k + 1, ']')
    } else {
        None
    }
}

pub proof fn lemma_chain_link(s: Seq<char>, k: int, d: Dialect)
    requires
        0 <= k <= s.len(),
    ensures
        chain_link(s, k, d) matches Some(e) ==> k < e <= s.len(),
{
    if k < s.len() {
        lemma_ident(s, k + 1, d);
        lemma_content_rest(s, k + 1, ')');
        lemma_content_rest(s, k + 1, ']');
        if k + 1 < s.len() {
            lemma_ident(s, k + 2, d);
        }
    }
}

pub fn chain_segment(s: &[char], k: usize, d: Dialect) -> (r: Option<usize>)
    requires
        k <= s@.len(),
    ensures
        opt_pos(r) == chain_link(s@, k as int, d),
        r matches Some(e) ==> k < e <= s@.len(),
{
    proof { lemma_chain_link(s@, k as int, d); }
    let _len = s.len();
    if is_char_at(s, k, '&') || is_char_at(s, k, '.') {
        rust_identifier(s, k + 1, d)
    } else if is_char_at(s, k, ':') && is_char_at(s, k + 1, ':') {
        rust_identifier(s, k + 2, d)
    } else if is_char_at(s, k, '(') {
        content_tail(s, k + 1, ')')
    } else if is_char_at(s, k, '[') {
        content_tail(s, k + 1, ']')
    } else {
        None
    }
}

/// End of the chain links from `k`.
pub open spec fn chain_end(s: Seq<char>, k: int, d: Dialect) -> int
    decreases s.len() - k,
{
    match chain_link(s, k, d) {
        Some(k2) if k < k2 <= s.len() => chain_end(s, k2, d),
        _ => k,
    }
}

pub fn chain(s: &[char], k: usize, d: Dialect) -> (r: usize)
    requires
        k <= s@.len(),
    ensures
        r == chain_end(s@, k as int, d),
        k <= r <= s@.len(),
{
    let mut j = k;
    loop
        invariant
            k <= j <= s@.len(),
            chain_end(s@, j as int, d) == chain_end(s@, k as int, d),
        decreases s@.len() - j,
    {
        match chain_segment(s, j, d) {
            Some(j2) => {
                j = j2;
            },
            None => {
                return j;
            },
        }
    }
}


/// The closer of a bracket in a parameter type.
pub open spec fn type_closer(c: char) -> char {
    if c == '(' {
        ')'
    } else if c == '[' {
        ']'
    } else if c == '{' {
        '}'
    } else {
        '>'
    }
}

/// A bracketed run in a parameter type (`param_type_nested`): `(`, `[`, `{`
/// or `<`, then nested runs and characters other than the closer (inside
/// `<...>` also `->` and `=>`), then the closer.
pub open spec fn type_group(s: Seq<char>, i: int) -> Option<int>
    decreases s.len() - i, 0int,
{
    if 0 <= i < s.len() && (s[i] == '(' || s[i] == '[' || s[i] == '{' || s[i] == '<') {
        type_group_rest(s, i + 1, type_closer(s[i]))
    } else {
        None
    }
}

pub open spec fn type_group_rest(s: Seq<char>, k: int, c: char) -> Option<int>
    decreases s.len() - k, 1int,
{
    if k < 0 || k > s.len() {
        None
    } else {
        match type_group(s, k) {
            Some(k2) if k < k2 <= s.len() => type_group_rest(s, k2, c),
            _ => if c == '>' && (char_at(s, k, '-') || char_at(s, k, '=')) && char_at(
                s,
                k + 1,
                '>',
            ) {
                type_group_rest(s, k + 2, c)
            } else if k < s.len() && s[k] != c {
                type_group_rest(s, k + 1, c)
            } else if k < s.len() {
                Some(k + 1)
            } else {
                None
            },
        }
    }
}

pub proof fn lemma_type_group(s: Seq<char>, i: int)
    requires
        0 <= i,
    ensures
        type_group(s, i) matches Some(e) ==> i < e <= s.len(),
    decreases s.len() - i, 0int,
{
    if 0 <= i < s.len() && (s[i] == '(' || s[i] == '[' || s[i] == '{' || s[i] == '<') {
        lemma_type_group_rest(s, i + 1, type_closer(s[i]));
    }
}

pub proof fn lemma_type_group_rest(s: Seq<char>, k: int, c: char)
    requires
        0 <= k,
    ensures
        type_group_rest(s, k, c) matches Some(e) ==> k < e <= s.len(),
    decreases s.len() - k, 1int,
{
    if k <= s.len() {
        match type_group(s, k) {
            Some(k2) if k < k2 <= s.len() => lemma_type_group_rest(s, k2, c),
            _ => if c == '>' && (char_at(s, k, '-') || char_at(s, k, '=')) && char_at(
                s,
                k + 1,
                '>',
            ) {
                lemma_type_group_rest(s, k + 2, c);
            } else if k < s.len() && s[k] != c {
                lemma_type_group_rest(s, k + 1, c);
            },
        }
    }
}

pub fn param_type_nested(s: &[char], i: usize) -> (r: Option<usize>)
    requires
        i <= s@.len(),
    ensures
        opt_pos(r) == type_group(s@, i as int),
        r matches Some(e) ==> i < e <= s@.len(),
    decreases s@.len() - i, 0int,
{
    proof { lemma_type_group(s@, i as int); }
    let _len = s.len();
    if i < s.len() && (s[i] == '(' || s[i] == '[' || s[i] == '{' || s[i] == '<') {
        let c = if s[i] == '(' {
            ')'
        } else if s[i] == '[' {
            ']'
        } else if s[i] == '{' {
            '}'
        } else {
            '>'
        };
        type_group_tail(s, i + 1, c)
    } else {
        None
    }
}

pub fn type_group_tail(s: &[char], k: usize, c: char) -> (r: Option<usize>)
    requires
        k <= s@.len(),
    ensures
        opt_pos(r) == type_group_rest(s@, k as int, c),
        r matches Some(e) ==> k < e <= s@.len(),
    decreases s@.len() - k, 1int,
{
    proof { lemma_type_group_rest(s@, k as int, c); }
    let _len = s.len();
    let mut j = k;
    loop
        invariant
            k <= j <= s@.len(),
            s@.len() == s.len(),
            type_group_rest(s@, j as int, c) == type_group_rest(s@, k as int, c),
        decreases s@.len() - j,
    {
        match param_type_nested(s, j) {
            Some(j2) => {
                j = j2;
            },
            None => {
                if c == '>' && (is_char_at(s, j, '-') || is_char_at(s, j, '=')) && is_char_at(
                    s,
                    j + 1,
                    '>',
                ) {
                    j = j + 2;
                } else if j < s.len() && s[j] != c {
                    j = j + 1;
                } else if j < s.len() {
                    return Some(j + 1);
                } else {
                    return None;
                }
            },
        }
    }
}

/// Characters that end a parameter type unless bracketed: `( [ { < , )`.
pub open spec fn type_stop(c: char) -> bool {
    c == '(' || c == '[' || c == '{' || c == '<' || c == ',' || c == ')'
}

/// End of the type pieces (bracketed runs and other characters) from `k`.
pub open spec fn type_end(s: Seq<char>, k: int) -> int
    decreases s.len() - k,
{
    if k < 0 || k > s.len() {
        k
    } else {
        match type_group(s, k) {
            Some(k2) if k < k2 <= s.len() => type_end(s, k2),
            _ => if k < s.len() && !type_stop(s[k]) {
                type_end(s, k + 1)
            } else {
                k
            },
        }
    }
}

/// A parameter type (`param_type`): at least one piece.
pub open spec fn param_type_at(s: Seq<char>, i: int) -> Option<int> {
    if type_end(s, i) > i {
        Some(type_end(s, i))
    } else {
        None
    }
}

pub proof fn lemma_type_end(s: Seq<char>, k: int)
    requires
        0 <= k <= s.len(),
    ensures
        k <= type_end(s, k) <= s.len(),
    decreases s.len() - k,
{
    match type_group(s, k) {
        Some(k2) if k < k2 <= s.len() => lemma_type_end(s, k2),
        _ => if k < s.len() && !type_stop(s[k]) {
            lemma_type_end(s, k + 1);
        },
    }
}

pub fn param_type(s: &[char], i: usize) -> (r: Option<usize>)
    requires
        i <= s@.len(),
    ensures
        opt_pos(r) == param_type_at(s@, i as int),
        r matches Some(e) ==> i < e <= s@.len(),
{
    proof { lemma_type_end(s@, i as int); }
    let _len = s.len();
    let mut j = i;
    loop
        invariant
            i <= j <= s@.len(),
            s@.len() == s.len(),
            type_end(s@, j as int) == type_end(s@, i as int),
        ensures
            i <= j <= s@.len(),
            type_end(s@, i as int) == j,
        decreases s@.len() - j,
    {
        match param_type_nested(s, j) {
            Some(j2) => {
                j = j2;
            },
            None => {
                if j < s.len() && !(s[j] == '(' || s[j] == '[' || s[j] == '{' || s[j] == '<'
                    || s[j] == ',' || s[j] == ')') {
                    j = j + 1;
                } else {
                    assert(type_end(s@, j as int) == j);
                    break ;
                }
            },
        }
    }
    if j > i {
        Some(j)
    } else {
        None
    }
}

/// `c` equals the ASCII letter `lower` in either case.
pub open spec fn caseless(c: char, lower: char) -> bool {
    c == lower || (c as int) == (lower as int) - 32
}

pub open spec fn digit_run(s: Seq<char>, k: int) -> int {
    run_end(s, k, Class::Digit)
}

/// An exponent (`take_exp`): nothing, or `e`/`E`, an optional sign, digits.
pub open spec fn exponent(s: Seq<char>, k: int) -> Option<int> {
    if char_at(s, k, 'e') || char_at(s, k, 'E') {
        let j = if char_at(s, k + 1, '+') || char_at(s, k + 1, '-') {
            k + 2
        } else {
            k + 1
        };
        if digit_run(s, j) > j {
            Some(digit_run(s, j))
        } else {
            None
        }
    } else {
        Some(k)
    }
}

/// An unsigned number or infinity (`take_unsigned_float_or_exceptions`).
pub open spec fn unsigned_float(s: Seq<char>, k: int) -> Option<int> {
    if 0 <= k && k + 3 <= s.len() && caseless(s[k], 'i') && caseless(s[k + 1], 'n') && caseless(
        s[k + 2],
        'f',
    ) {
        if k + 8 <= s.len() && caseless(s[k + 3], 'i') && caseless(s[k + 4], 'n') && caseless(
            s[k + 5],
            'i',
        ) && caseless(s[k + 6], 't') && caseless(s[k + 7], 'y') {
            Some(k + 8)
        } else {
            Some(k + 3)
        }
    } else if 0 <= k < s.len() && (s[k] == 'i' || s[k] == 'I') {
        None
    } else if char_at(s, k, '.') {
        if digit_run(s, k + 1) > k + 1 {
            exponent(s, digit_run(s, k + 1))
        } else {
            None
        }
    } else if digit_run(s, k) > k {
        let d = digit_run(s, k);
        let f = if char_at(s, d, '.') {
            digit_run(s, d + 1)
        } else {
            d
        };
        exponent(s, f)
    } else {
        None
    }
}

/// A floating point number as an attribute value: `nan` in either case, or
/// an optional sign and an unsigned number or infinity.
pub open spec fn float_lexeme(s: Seq<char>, i: int) -> Option<int> {
    if 0 <= i < s.len() && (s[i] == 'n' || s[i] == 'N') {
        if i + 3 <= s.len() && caseless(s[i + 1], 'a') && caseless(s[i + 2], 'n') {
            Some(i + 3)
        } else {
            None
        }
    } else if char_at(s, i, '+') || char_at(s, i, '-') {
        unsigned_float(s, i + 1)
    } else {
        unsigned_float(s, i)
    }
}

pub(crate) fn is_caseless(c: char, lower: char) -> (r: bool)
    requires
        'a' <= lower <= 'z',
    ensures
        r == caseless(c, lower),
{
    c == lower || (c as u32) + 32 == (lower as u32)
}

fn digits(s: &[char], k: usize) -> (r: usize)
    requires
        k <= s@.len(),
    ensures
        r == digit_run(s@, k as int),
        k <= r <= s@.len(),
{
    run(s, k, Class::Digit)
}

fn scan_exponent(s: &[char], k: usize) -> (r: Option<usize>)
    requires
        k <= s@.len(),
    ensures
        opt_pos(r) == exponent(s@, k as int),
        r matches Some(e) ==> k <= e <= s@.len(),
{
    let _len = s.len();
    if is_char_at(s, k, 'e') || is_char_at(s, k, 'E') {
        let j = if is_char_at(s, k + 1, '+') || is_char_at(s, k + 1, '-') {
            k + 2
        } else {
            k + 1
        };
        let e = digits(s, j);
        if e > j {
            Some(e)
        } else {
            None
        }
    } else {
        Some(k)
    }
}

fn scan_unsigned_float(s: &[char], k: usize) -> (r: Option<usize>)
    requires
        k <= s@.len(),
    ensures
        opt_pos(r) == unsigned_float(s@, k as int),
        r matches Some(e) ==> k < e <= s@.len(),
{
    let _len = s.len();
    if s.len() - k >= 3 && is_caseless(s[k], 'i') && is_caseless(s[k + 1], 'n') && is_caseless(
        s[k + 2],
        'f',
    ) {
        if s.len() - k >= 8 && is_caseless(s[k + 3], 'i') && is_caseless(s[k + 4], 'n')
            && is_caseless(s[k + 5], 'i') && is_caseless(s[k + 6], 't') && is_caseless(
            s[k + 7],
            'y',
        ) {
            Some(k + 8)
        } else {
            Some(k + 3)
        }
    } else if k < s.len() && (s[k] == 'i' || s[k] == 'I') {
        None
    } else if is_char_at(s, k, '.') {
        let d = digits(s, k + 1);
        if d > k + 1 {
            scan_exponent(s, d)
        } else {
            None
        }
    } else {
        let d = digits(s, k);
        if d > k {
            let f = if is_char_at(s, d, '.') {
                digits(s, d + 1)
            } else {
                d
            };
            scan_exponent(s, f)
        } else {
            None
        }
    }
}

/// The floating point literal at `i`, if any.
pub fn float(s: &[char], i: usize) -> (r: Option<usize>)
    requires
        i <= s@.len(),
    ensures
        opt_pos(r) == float_lexeme(s@, i as int),
        r matches Some(e) ==> i < e <= s@.len(),
{
    let _len = s.len();
    if i < s.len() && (s[i] == 'n' || s[i] == 'N') {
        if s.len() - i >= 3 && is_caseless(s[i + 1], 'a') && is_caseless(s[i + 2], 'n') {
            Some(i + 3)
        } else {
            None
        }
    } else if is_char_at(s, i, '+') || is_char_at(s, i, '-') {
        scan_unsigned_float(s, i + 1)
    } else {
        scan_unsigned_float(s, i)
    }
}

} // verus!
