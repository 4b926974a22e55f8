//! The template grammar, as mathematical functions.
//!
//! Each rule takes the text, a position and the compilation state, and gives
//! the rule's outcome together with the state after it. A template is HTML
//! text with `@` directives (`@use`, `@{ code }`, `@if`/`@for` statements,
//! `@child_content`, `@continue`, `@break`, `@(expr)`, `@expr`) and
//! components (`<Name attr=value> ... </Name>`).
use vstd::prelude::*;
use crate::classes::{Class, at, char_at, in_class, lemma_run_end, run_end};
use crate::code::{FragV, ValueV, render};
use crate::text::char_width;
use crate::context::{St, UseV, find_use, insert_use};
use crate::lexer::{
    Dialect, attr_name, chain_end, float_lexeme, group_rest, ident, lemma_chain_link, lemma_ident,
    quoted, stmt_head, tag_ident, ws, lemma_quote_rest, param_type_at, lemma_type_end,
};
use crate::names::{component_name, ends_with, fn_name_of, struct_field_of, template_suffix};
use crate::outcome::{CtxV, Expect, Label, Out, cut_expect, labeled};
use crate::rust_code::{code_block, lemma_code_block};
use crate::syntax::{lex_error, syn_block_error, syn_expr_error, syn_expr_ok, syn_ident_error, syn_type_ok};

verus! {

pub open spec fn kw_use() -> Seq<char> { seq!['u', 's', 'e'] }
pub open spec fn kw_as() -> Seq<char> { seq!['a', 's'] }
pub open spec fn kw_if() -> Seq<char> { seq!['i', 'f'] }
pub open spec fn kw_for() -> Seq<char> { seq!['f', 'o', 'r'] }
pub open spec fn kw_else() -> Seq<char> { seq!['e', 'l', 's', 'e'] }
pub open spec fn kw_true() -> Seq<char> { seq!['t', 'r', 'u', 'e'] }
pub open spec fn kw_false() -> Seq<char> { seq!['f', 'a', 'l', 's', 'e'] }
pub open spec fn kw_continue() -> Seq<char> { seq!['c', 'o', 'n', 't', 'i', 'n', 'u', 'e'] }
pub open spec fn kw_break() -> Seq<char> { seq!['b', 'r', 'e', 'a', 'k'] }
pub open spec fn kw_child_content() -> Seq<char> {
    seq!['c', 'h', 'i', 'l', 'd', '_', 'c', 'o', 'n', 't', 'e', 'n', 't']
}
pub open spec fn empty_block() -> Seq<char> { seq![' ', '{', '}'] }

/// A committed failure whose trail is a single description.
pub open spec fn cut_desc<T>(p: int, d: Seq<char>) -> Out<T> {
    Out::Cut(p, seq![CtxV::Description(d)])
}

/// A failure of one type read as an outcome of another.
pub open spec fn fail_as<A, B>(o: Out<A>) -> Out<B> {
    match o {
        Out::Cut(p, t) => Out::Cut(p, t),
        _ => Out::Back,
    }
}

/// `f` put in front of the fragments of a success.
pub open spec fn pre(f: Seq<FragV>, o: Out<Seq<FragV>>) -> Out<Seq<FragV>> {
    match o {
        Out::Done(e, g) => Out::Done(e, f + g),
        _ => o,
    }
}

// ---------------------------------------------------------------- text

/// The start of a component tag (`<` Name or `</` Name), where text stops.
pub open spec fn tag_start(s: Seq<char>, k: int) -> bool {
    ||| char_at(s, k, '<') && tag_ident(s, ws(s, k + 1)) is Some
    ||| char_at(s, k, '<') && char_at(s, k + 1, '/') && tag_ident(s, ws(s, k + 2)) is Some
}

/// One piece of literal text at `k`: a run of ordinary characters, `@@`
/// (which stands for `@`), or any other character that does not start a
/// directive or a component tag (nor, inside braces, closes them).
pub open spec fn text_piece(s: Seq<char>, k: int, inner: bool) -> Option<(int, Seq<char>)> {
    let class = if inner {
        Class::InnerText
    } else {
        Class::Text
    };
    if 0 <= k < s.len() && in_class(s[k], class) {
        Some((run_end(s, k, class), s.subrange(k, run_end(s, k, class))))
    } else if char_at(s, k, '@') && char_at(s, k + 1, '@') {
        Some((k + 2, seq!['@']))
    } else if 0 <= k < s.len() && !(s[k] == '@' || (inner && s[k] == '}') || tag_start(s, k)) {
        Some((k + 1, seq![s[k]]))
    } else {
        None
    }
}

/// The text from `k`: its end and the characters it stands for.
pub open spec fn text_from(s: Seq<char>, k: int, inner: bool) -> (int, Seq<char>)
    decreases s.len() - k,
{
    match text_piece(s, k, inner) {
        Some((k2, p)) if k < k2 <= s.len() => {
            let (e, t) = text_from(s, k2, inner);
            (e, p + t)
        },
        _ => (k, Seq::empty()),
    }
}

/// Literal text (at least one piece): written out, and counted.
pub open spec fn text(s: Seq<char>, k: int, st: St, inner: bool) -> (Out<Seq<FragV>>, St) {
    let (e, t) = text_from(s, k, inner);
    if e > k {
        (Out::Done(e, seq![FragV::Write(t)]), St { text_size: st.text_size + t.len(), ..st })
    } else {
        (Out::Back, st)
    }
}

// ---------------------------------------------------------------- use

/// Index of the first character of `x` from `i` that is not `q`.
pub open spec fn strip_front(x: Seq<char>, i: int, q: char) -> int
    decreases x.len() - i,
{
    if 0 <= i < x.len() && x[i] == q {
        strip_front(x, i + 1, q)
    } else {
        i
    }
}

/// End after dropping the characters `q` before `e`, down to `lo`.
pub open spec fn strip_back(x: Seq<char>, lo: int, e: int, q: char) -> int
    decreases e - lo,
{
    if lo < e && 0 < e <= x.len() && x[e - 1] == q {
        strip_back(x, lo, e - 1, q)
    } else {
        e
    }
}

/// `x` without the `q`s at either end (`str::trim_matches`).
pub open spec fn trim_matches(x: Seq<char>, q: char) -> Seq<char> {
    let f = strip_front(x, 0, q);
    x.subrange(f, strip_back(x, f, x.len() as int, q))
}

/// The template path named by a quoted string: the quotes (of the kind it
/// opens with) taken off both ends, and `.rs.html` added unless present.
pub open spec fn use_path(raw: Seq<char>) -> Seq<char> {
    let p = if raw.len() > 0 && raw[0] == '\'' {
        trim_matches(raw, '\'')
    } else {
        trim_matches(raw, '"')
    };
    if ends_with(p, template_suffix()) {
        p
    } else {
        p + template_suffix()
    }
}

/// The use directive recorded for a component: the file grammar records the
/// function the template compiles to, the inline one leaves it empty.
pub open spec fn use_record(name: Seq<char>, path: Seq<char>, d: Dialect) -> UseV {
    UseV {
        name,
        path,
        fn_name: if d == Dialect::File {
            fn_name_of(path)
        } else {
            Seq::empty()
        },
        params: Seq::empty(),
        source: Seq::empty(),
    }
}

/// `use "path" [as Name] [;]` at `k` (after the `@`): imports a component,
/// named `Name` or after the file; generates no code.
pub open spec fn use_directive(s: Seq<char>, k: int, st: St, d: Dialect) -> (
    Out<Seq<FragV>>,
    St,
) {
    if !at(s, k, kw_use()) {
        (Out::Back, st)
    } else {
        let a = k + 3;
        let w = ws(s, a);
        // the path: after whitespace a string is required; without
        // whitespace, a string may follow directly
        if w > a && quoted(s, w) is None {
            (cut_expect(w, Expect::Path), st)
        } else if w == a && quoted(s, a) is None {
            (Out::Back, st)
        } else {
            let qe = quoted(s, w)->0;
            let w2 = ws(s, qe);
            let named = at(s, w2, kw_as());
            let w3 = ws(s, w2 + 2);
            if named && tag_ident(s, w3) is None {
                (cut_expect(w3, Expect::ComponentTagIdentifier), st)
            } else {
                let after = if named {
                    tag_ident(s, w3)->0
                } else {
                    w2
                };
                let end = if char_at(s, after, ';') {
                    after + 1
                } else {
                    after
                };
                let path = use_path(s.subrange(w, qe));
                let name = if named {
                    Some(s.subrange(w3, after))
                } else {
                    component_name(path)
                };
                match name {
                    None => (
                        Out::Cut(k, seq![CtxV::Expected(Expect::InvalidComponentPath)]),
                        st,
                    ),
                    Some(n) => (
                        Out::Done(end, Seq::empty()),
                        St { uses: insert_use(st.uses, use_record(n, path, d)), ..st },
                    ),
                }
            }
        }
    }
}

// ---------------------------------------------------------------- code

/// Where line `line` (1-based) of `text` starts, counting lines from the one
/// that starts at `j`; past the last line, the end of the text.
pub open spec fn line_start(text: Seq<char>, j: int, line: int) -> int
    decreases text.len() - j,
{
    if line <= 1 || j < 0 || j >= text.len() {
        j
    } else {
        let nl = run_end(text, j, Class::LineRest);
        if nl < text.len() {
            proof {
                lemma_run_end(text, j, Class::LineRest);
            }
            line_start(text, nl + 1, line - 1)
        } else {
            text.len() as int
        }
    }
}

/// Offset in `text` of column `col` of line `line`: the lengths of the
/// lines before it, newlines included, and the column.
pub open spec fn line_offset(text: Seq<char>, line: int, col: int) -> int {
    line_start(text, 0, line) + col
}

/// The number of bytes of the UTF-8 encoding of `t[i..j]`.
pub open spec fn byte_len(t: Seq<char>, i: int, j: int) -> nat
    decreases j - i,
{
    if j <= i {
        0
    } else {
        byte_len(t, i, j - 1) + char_width(t[j - 1])
    }
}

/// The position reached from `j` in `s` by going `b` bytes of UTF-8
/// further; `None` when that falls inside a character or past the end.
pub open spec fn skip_bytes(s: Seq<char>, j: int, b: int) -> Option<int>
    decreases s.len() - j,
{
    if b == 0 {
        Some(j)
    } else if b < 0 || j < 0 || j >= s.len() || char_width(s[j]) > b {
        None
    } else {
        skip_bytes(s, j + 1, b - char_width(s[j]))
    }
}

/// Where the error of a code block whose text is `t` points, the block
/// being read from `k` of `s`: `k` and as many bytes further as the lines
/// of `t` before line `line` take, plus `col` (`syn`'s column). When that
/// falls inside a character or past the end, the offset of that column in
/// characters is taken instead, or the end of `s`.
pub open spec fn block_error_position(s: Seq<char>, k: int, t: Seq<char>, line: int, col: int) -> int {
    match skip_bytes(s, k, byte_len(t, 0, line_start(t, 0, line)) + col) {
        Some(j) => j,
        None => {
            let p = k + line_offset(t, line, col);
            if 0 <= p <= s.len() {
                p
            } else {
                s.len() as int
            }
        },
    }
}

/// A code block `{ ... }` at `k`; with `after_at`, `@` and whitespace first.
/// Its statements are emitted when `syn` reads the text as a block; otherwise
/// the block fails where `syn` points.
pub open spec fn rust_block(s: Seq<char>, k: int, after_at: bool) -> Out<Seq<FragV>> {
    let b = if after_at {
        if char_at(s, k, '@') {
            ws(s, k + 1)
        } else {
            -1
        }
    } else {
        k
    };
    let start = if after_at {
        k + 1
    } else {
        k
    };
    if b < 0 {
        Out::Back
    } else {
        match code_block(s, b) {
            Out::Done(e, _) => {
                let t = s.subrange(start, e);
                match syn_block_error(t) {
                    None => Out::Done(e, seq![FragV::Stmts(t)]),
                    Some((line, col, msg)) => cut_desc(
                        block_error_position(s, k, t, line, col),
                        msg,
                    ),
                }
            },
            Out::Back => Out::Back,
            Out::Cut(p, t) => Out::Cut(p, t),
        }
    }
}

// ---------------------------------------------------------------- small directives

pub open spec fn child_content_directive(s: Seq<char>, k: int, d: Dialect) -> Out<Seq<FragV>> {
    let a = k + 13;
    if !at(s, k, kw_child_content()) {
        Out::Back
    } else if char_at(s, a, '(') && char_at(s, a + 1, ')') {
        Out::Done(a + 2, seq![FragV::ChildContent])
    } else if ident(s, a, d) is None {
        Out::Done(a, seq![FragV::ChildContent])
    } else {
        Out::Back
    }
}

pub open spec fn continue_directive(s: Seq<char>, k: int) -> Out<Seq<FragV>> {
    if at(s, k, kw_continue()) {
        Out::Done(ws(s, k + 8), seq![FragV::Continue])
    } else {
        Out::Back
    }
}

pub open spec fn break_directive(s: Seq<char>, k: int) -> Out<Seq<FragV>> {
    if at(s, k, kw_break()) {
        Out::Done(ws(s, k + 5), seq![FragV::Break])
    } else {
        Out::Back
    }
}

// ---------------------------------------------------------------- expressions

/// Whether an expression that reads `self.field` names a field the struct
/// does not have (checked by the file grammar only).
pub open spec fn undefined_field(expr: Seq<char>, st: St, d: Dialect) -> bool {
    &&& d == Dialect::File
    &&& struct_field_of(expr) is Some
    &&& !st.fields.contains(struct_field_of(expr)->0)
}

/// The escaping of a parenthesised expression: with the file grammar a `#`
/// prefix means raw output; with the inline grammar it means escaped output.
pub open spec fn escaped_by(hash: bool, d: Dialect) -> bool {
    if d == Dialect::File {
        !hash
    } else {
        hash
    }
}

/// `(expr)` or `#(expr)` at `k`: the expression between the parentheses,
/// which `syn` must read as an expression, and whether it is escaped.
pub open spec fn simple_expr_paren(s: Seq<char>, k: int, st: St, d: Dialect) -> Out<
    (Seq<char>, bool),
> {
    let hash = char_at(s, k, '#');
    let h = if hash {
        k + 1
    } else {
        k
    };
    if !char_at(s, h, '(') {
        Out::Back
    } else {
        match group_rest(s, h + 1, ')') {
            None => Out::Back,
            Some(e) => {
                let expr = s.subrange(h + 1, e - 1);
                if !syn_expr_ok(expr) {
                    Out::Cut(k, seq![CtxV::Expected(Expect::InvalidExpression)])
                } else if undefined_field(expr, st, d) {
                    Out::Cut(k, seq![CtxV::Expected(Expect::UndefinedField)])
                } else {
                    Out::Done(e, (expr, escaped_by(hash, d)))
                }
            },
        }
    }
}

/// Words that start something other than a simple expression: `{`, `if`,
/// `for`, `use`, `child_content`, and with the file grammar `(`; each counts
/// only when followed by whitespace or by no identifier.
pub open spec fn reserved_start(s: Seq<char>, k: int, d: Dialect) -> bool {
    let w = ws(s, k);
    let p = if char_at(s, w, '{') || (d == Dialect::File && char_at(s, w, '(')) {
        w + 1
    } else if at(s, w, kw_if()) {
        w + 2
    } else if at(s, w, kw_for()) || at(s, w, kw_use()) {
        w + 3
    } else if at(s, w, kw_child_content()) {
        w + 13
    } else {
        -1
    };
    p >= 0 && ((0 <= p < s.len() && in_class(s[p], Class::Space)) || ident(s, p, d) is None)
}

/// A run of `&` from `k`.
pub open spec fn amp_end(s: Seq<char>, k: int) -> int
    decreases s.len() - k,
{
    if 0 <= k < s.len() && s[k] == '&' {
        amp_end(s, k + 1)
    } else {
        k
    }
}

/// `expr` or `#expr` at `k`: `&`s, an identifier and a chain of links
/// (`.name`, `::name`, `&name`, `(...)`, `[...]`), which `syn` must read as
/// an expression; with `#` it is rendered raw, otherwise escaped.
pub open spec fn simple_expr(s: Seq<char>, k: int, st: St, d: Dialect) -> Out<(Seq<char>, bool)> {
    if reserved_start(s, k, d) {
        Out::Back
    } else {
        let hash = char_at(s, k, '#');
        let h = if hash {
            k + 1
        } else {
            k
        };
        let a = amp_end(s, h);
        match ident(s, a, d) {
            None => Out::Back,
            Some(ie) => {
                let e = chain_end(s, ie, d);
                let expr = s.subrange(h, e);
                if !syn_expr_ok(expr) {
                    Out::Cut(k, seq![CtxV::Expected(Expect::InvalidExpression)])
                } else if undefined_field(expr, st, d) {
                    Out::Cut(k, seq![CtxV::Expected(Expect::UndefinedField)])
                } else {
                    Out::Done(e, (expr, !hash))
                }
            },
        }
    }
}

/// An expression outcome rendered as code.
pub open spec fn rendered(o: Out<(Seq<char>, bool)>) -> Out<Seq<FragV>> {
    match o {
        Out::Done(e, (x, esc)) => Out::Done(e, seq![render(x, esc, Seq::empty())]),
        Out::Back => Out::Back,
        Out::Cut(p, t) => Out::Cut(p, t),
    }
}


// ---------------------------------------------------------------- parameters

/// The type a parameter without one gets.
pub open spec fn default_param_type(d: Dialect) -> Seq<char> {
    if d == Dialect::File {
        "impl ::rshtml::View"@
    } else {
        "impl ::std::fmt::Display"@
    }
}

/// One parameter `name` or `name: Type` at `k`.
pub open spec fn param(s: Seq<char>, k: int, d: Dialect) -> Out<(Seq<char>, Option<Seq<char>>)> {
    let w = ws(s, k);
    match ident(s, w, d) {
        None => cut_expect(w, Expect::Identifier),
        Some(ie) => if !(char_at(s, ie, ':') || char_at(s, ie, ',') || char_at(s, ie, ')') || (0
            <= ie < s.len() && crate::classes::unicode_whitespace(s[ie]))) {
            cut_expect(ie, Expect::Identifier)
        } else {
            let w2 = ws(s, ie);
            let name = s.subrange(w, ie);
            if char_at(s, w2, ':') {
                let w3 = ws(s, w2 + 1);
                match param_type_at(s, w3) {
                    None => cut_expect(w3, Expect::Type),
                    Some(pe) => if syn_type_ok(s.subrange(w3, pe)) {
                        Out::Done(ws(s, pe), (name, Some(s.subrange(w3, pe))))
                    } else {
                        cut_expect(w3, Expect::Type)
                    },
                }
            } else {
                Out::Done(w2, (name, None))
            }
        },
    }
}

/// More parameters after the first: `, param` while a comma follows.
pub open spec fn more_params(s: Seq<char>, p: int, d: Dialect) -> Out<
    Seq<(Seq<char>, Option<Seq<char>>)>,
>
    decreases s.len() - p,
{
    if !char_at(s, p, ',') {
        Out::Done(p, Seq::empty())
    } else {
        match param(s, p + 1, d) {
            Out::Done(e, x) => if p < e <= s.len() {
                match more_params(s, e, d) {
                    Out::Done(e2, xs) => Out::Done(e2, seq![x] + xs),
                    o => o,
                }
            } else {
                Out::Back
            },
            o => fail_as(o),
        }
    }
}

/// The parameter list after `(` and whitespace: empty before `)` (file
/// grammar), or parameters separated by commas.
pub open spec fn param_list(s: Seq<char>, w: int, d: Dialect) -> Out<
    Seq<(Seq<char>, Option<Seq<char>>)>,
> {
    if d == Dialect::File && char_at(s, w, ')') {
        Out::Done(w, Seq::empty())
    } else {
        match param(s, w, d) {
            Out::Done(e, x) => match more_params(s, e, d) {
                Out::Done(e2, xs) => Out::Done(e2, seq![x] + xs),
                o => o,
            },
            o => fail_as(o),
        }
    }
}

pub open spec fn with_default(ps: Seq<(Seq<char>, Option<Seq<char>>)>, d: Dialect) -> Seq<
    (Seq<char>, Seq<char>),
> {
    ps.map_values(
        |p: (Seq<char>, Option<Seq<char>>)|
            (
                p.0,
                match p.1 {
                    Some(t) => t,
                    None => default_param_type(d),
                },
            ),
    )
}

/// `@(name: Type, ...)` at `i`, with an optional `;`: the template's
/// parameters, recorded in the state (a parameter without a type gets the
/// default one).
pub open spec fn template_params(s: Seq<char>, i: int, st: St, d: Dialect) -> (
    Out<Seq<FragV>>,
    St,
) {
    let w = ws(s, i + 1);
    if !char_at(s, i, '@') || !char_at(s, w, '(') {
        (Out::Back, st)
    } else {
        match param_list(s, ws(s, w + 1), d) {
            Out::Done(p, ps) => {
                let w2 = ws(s, p);
                if !char_at(s, w2, ')') {
                    (Out::Back, st)
                } else {
                    let w3 = ws(s, w2 + 1);
                    let end = if char_at(s, w3, ';') {
                        w3 + 1
                    } else {
                        w2 + 1
                    };
                    (Out::Done(end, Seq::empty()), St { params: with_default(ps, d), ..st })
                }
            },
            o => (fail_as(o), st),
        }
    }
}

} // verus!
