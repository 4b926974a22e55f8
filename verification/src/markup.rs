//! The nested part of the template grammar, as mathematical functions:
//! template content, blocks, components with their attributes, and
//! `@if` / `@for` statements with their braced bodies.
//!
//! Three flavours share these rules: templates read by the derive macro
//! (`File`), templates given inline to the view macro (`View`, which has no
//! catch-all error for an `@` that starts nothing), and templates of the older
//! inline macro (`Macro`, whose content is text and `@` directives only).
//!
//! Every rule gives its outcome and the state after it. A rule that backs off
//! leaves the state as it was; a committed failure keeps what the rule had
//! recorded before it failed.
use vstd::prelude::*;
use crate::classes::{Class, at, char_at, in_class, lemma_run_end, run_end};
use crate::code::{FragV, ValueV};
use crate::context::{St, find_use};
use crate::grammar::{
    break_directive, child_content_directive, continue_directive, cut_desc, empty_block, fail_as,
    kw_else, kw_false, kw_for, kw_if, kw_true, pre, rendered, rust_block, simple_expr,
    simple_expr_paren, template_params, text, text_from, text_piece, use_directive,
};
use crate::lexer::{Dialect, attr_name, float_lexeme, quoted, stmt_head, tag_ident, ws};
use crate::order::sort_names;
use crate::outcome::{CtxV, Expect, Label, Out, cut_expect, labeled};
use crate::syntax::{lex_error, syn_expr_error, syn_ident_error};

verus! {

/// Which of the three template grammars is in use.
#[derive(Clone, Copy, PartialEq, Eq, Structural, Debug)]
pub enum Flavor {
    File,
    View,
    Macro,
}

/// The identifier grammar of a flavour.
pub open spec fn dialect(f: Flavor) -> Dialect {
    if f == Flavor::Macro {
        Dialect::Macro
    } else {
        Dialect::File
    }
}

/// The outcome of a rule together with the state after it.
pub type Step = (Out<Seq<FragV>>, St);

/// `f` put in front of the fragments of a successful step.
pub open spec fn then_pre(f: Seq<FragV>, r: Step) -> Step {
    (pre(f, r.0), r.1)
}

/// A step with `l` added to the trail of a committed failure.
pub open spec fn tagged(r: Step, l: Label) -> Step {
    (labeled(r.0, l), r.1)
}

/// The first of two alternatives that does not back off.
pub open spec fn either(a: Step, b: Step) -> Step {
    if a.0 is Back {
        b
    } else {
        a
    }
}

/// The message for a component tag that no `@use` imported.
pub open spec fn missing_component(tag: Seq<char>) -> Seq<char> {
    "attempt to use a missing component: component `"@ + tag + "` is used but not found"@
}

/// The value of a component attribute: a plain value, or a template body
/// that becomes a closure.
pub enum AttrVal {
    Simple(ValueV),
    Template(Seq<FragV>),
}

/// The code that binds attribute `name` to its value.
pub open spec fn attr_frags(name: Seq<char>, v: AttrVal) -> Seq<FragV> {
    match v {
        AttrVal::Simple(x) => seq![FragV::Let { name, value: x }],
        AttrVal::Template(body) => seq![FragV::LetClosureOpen(name)] + body + seq![
            FragV::LetClosureClose,
        ],
    }
}

/// The code of a component: its attribute bindings, its body as the
/// `child_content` closure, and the call of the function its template
/// compiles to with the attribute names in order.
pub open spec fn component_code(
    lets: Seq<FragV>,
    body: Seq<FragV>,
    fn_name: Seq<char>,
    names: Seq<Seq<char>>,
) -> Seq<FragV> {
    seq![FragV::Open] + lets + seq![FragV::ChildOpen] + body + seq![
        FragV::ChildClose,
        FragV::Call { fn_name, args: sort_names(names) },
        FragV::Close,
    ]
}

/// The end of a component tag `tag` that started at `p` and ends at `end`:
/// the component must have been imported.
pub open spec fn component_end(
    p: int,
    tag: Seq<char>,
    end: int,
    lets: Seq<FragV>,
    names: Seq<Seq<char>>,
    body: Seq<FragV>,
    st: St,
) -> Step {
    match find_use(st.uses, tag) {
        None => (cut_desc(p, missing_component(tag)), st),
        Some(i) => (Out::Done(end, component_code(lets, body, st.uses[i].fn_name, names)), st),
    }
}

/// A parenthesised or simple expression given as an attribute value after `@`.
pub open spec fn expr_value(s: Seq<char>, k: int, st: St, d: Dialect) -> Out<AttrVal> {
    match simple_expr_paren(s, k, st, d) {
        Out::Done(e, (x, b)) => Out::Done(e, AttrVal::Simple(ValueV::Expr(x, b))),
        Out::Cut(q, t) => Out::Cut(q, t),
        Out::Back => match simple_expr(s, k, st, d) {
            Out::Done(e, (x, b)) => Out::Done(e, AttrVal::Simple(ValueV::Expr(x, b))),
            Out::Cut(q, t) => Out::Cut(q, t),
            Out::Back => Out::Back,
        },
    }
}

/// The directives of the older inline macro after `@` and whitespace: `use`,
/// a code block (which repeats the `@`), `child_content`, `continue`,
/// `break`, and a parenthesised expression.
pub open spec fn macro_directive(s: Seq<char>, w: int, st: St) -> Step {
    let d = Dialect::Macro;
    either(
        tagged(use_directive(s, w, st, d), Label::UseDirective),
        either(
            tagged((rust_block(s, w, true), st), Label::CodeBlock),
            either(
                tagged((child_content_directive(s, w, d), st), Label::ChildContent),
                either(
                    tagged((continue_directive(s, w), st), Label::Continue),
                    either(
                        tagged((break_directive(s, w), st), Label::Break),
                        tagged(
                            (rendered(simple_expr_paren(s, w, st, d)), st),
                            Label::ParenthesizedExpression,
                        ),
                    ),
                ),
            ),
        ),
    )
}

/// Template content from `p` (`template_content`, or inside braces with
/// `inner`): text and blocks, as many as follow.
pub open spec fn content(s: Seq<char>, p: int, st: St, f: Flavor, inner: bool) -> Step
    decreases s.len() - p, 9int,
{
    if p < 0 || p > s.len() {
        (Out::Back, st)
    } else {
        let (o, st1) = text(s, p, st, inner);
        match o {
            Out::Done(e, fr) => if p < e <= s.len() {
                then_pre(fr, content(s, e, st1, f, inner))
            } else {
                (Out::Back, st)
            },
            _ => {
                let (b, st2) = block(s, p, st, f);
                match b {
                    Out::Done(e, fr) => if p < e <= s.len() {
                        then_pre(fr, content(s, e, st2, f, inner))
                    } else {
                        (Out::Back, st)
                    },
                    Out::Back => (Out::Done(p, Seq::empty()), st),
                    Out::Cut(q, t) => (Out::Cut(q, t), st2),
                }
            },
        }
    }
}

/// A block at `p`: a component, or `@`, whitespace and a directive.
pub open spec fn block(s: Seq<char>, p: int, st: St, f: Flavor) -> Step
    decreases s.len() - p, 8int,
{
    if p < 0 || p > s.len() {
        (Out::Back, st)
    } else if f == Flavor::Macro {
        if char_at(s, p, '@') {
            macro_directive(s, ws(s, p + 1), st)
        } else {
            (Out::Back, st)
        }
    } else {
        let (o, st1) = component(s, p, st, f);
        if o is Back {
            if char_at(s, p, '@') {
                let w = ws(s, p + 1);
                proof {
                    lemma_run_end(s, p + 1, Class::Space);
                }
                at_directive(s, w, st, f)
            } else {
                (Out::Back, st)
            }
        } else {
            tagged((o, st1), Label::Component)
        }
    }
}

/// What may follow `@` in the file and view grammars; in the file grammar,
/// anything else is an error.
pub open spec fn at_directive(s: Seq<char>, w: int, st: St, f: Flavor) -> Step
    decreases s.len() - w, 6int,
{
    if w < 0 || w > s.len() {
        (Out::Back, st)
    } else {
        let d = dialect(f);
        let last = if f == Flavor::File {
            (cut_expect(w, Expect::ValidExpression), st)
        } else {
            (Out::Back, st)
        };
        either(
            tagged(use_directive(s, w, st, d), Label::UseDirective),
            either(
                tagged((rust_block(s, w, false), st), Label::CodeBlock),
                either(
                    tagged(rust_stmt(s, w, st, f), Label::Statement),
                    either(
                        tagged((child_content_directive(s, w, d), st), Label::ChildContent),
                        either(
                            tagged((continue_directive(s, w), st), Label::Continue),
                            either(
                                tagged((break_directive(s, w), st), Label::Break),
                                either(
                                    tagged(
                                        (rendered(simple_expr_paren(s, w, st, d)), st),
                                        Label::ParenthesizedExpression,
                                    ),
                                    either(
                                        tagged(
                                            (rendered(simple_expr(s, w, st, d)), st),
                                            Label::Expression,
                                        ),
                                        last,
                                    ),
                                ),
                            ),
                        ),
                    ),
                ),
            ),
        )
    }
}

/// `@if` with its `else if` and `else` branches, or `@for`.
pub open spec fn rust_stmt(s: Seq<char>, w: int, st: St, f: Flavor) -> Step
    decreases s.len() - w, 5int,
{
    if w < 0 || w > s.len() {
        (Out::Back, st)
    } else {
        either(if_chain(s, w, st, f), keyword_stmt(s, w, st, f, kw_for()))
    }
}

/// An `if` statement, the `else if` branches after it, and an optional
/// `else` branch.
pub open spec fn if_chain(s: Seq<char>, w: int, st: St, f: Flavor) -> Step
    decreases s.len() - w, 4int,
{
    if w < 0 || w > s.len() {
        (Out::Back, st)
    } else {
        let (o, st1) = keyword_stmt(s, w, st, f, kw_if());
        match o {
            Out::Done(e, head) => if w < e <= s.len() {
                let (o2, st2) = else_ifs(s, e, st1, f);
                match o2 {
                    Out::Done(e2, mid) => if e <= e2 <= s.len() {
                        let (o3, st3) = else_tail(s, e2, st2, f);
                        match o3 {
                            Out::Done(e3, last) => (Out::Done(e3, head + mid + last), st3),
                            Out::Back => (Out::Done(e2, head + mid), st2),
                            Out::Cut(q, t) => (Out::Cut(q, t), st3),
                        }
                    } else {
                        (Out::Back, st)
                    },
                    o2 => (o2, st2),
                }
            } else {
                (Out::Back, st)
            },
            o => (o, st1),
        }
    }
}

/// `kw` (`if` or `for`), a head, and a braced body; `syn` must read the head
/// followed by `{}` as an expression. The head is emitted as code, then the
/// body.
pub open spec fn keyword_stmt(s: Seq<char>, w: int, st: St, f: Flavor, kw: Seq<char>) -> Step
    decreases s.len() - w, 3int,
{
    if w < 0 || w > s.len() {
        (Out::Back, st)
    } else {
        let a = ws(s, w);
        proof {
            lemma_run_end(s, w, Class::Space);
        }
        if !at(s, a, kw) {
            (Out::Back, st)
        } else {
            match stmt_head(s, a + kw.len()) {
                None => (Out::Back, st),
                Some(h) => {
                    proof {
                        lemma_run_end(s, a + kw.len(), Class::Space);
                        lemma_run_end(s, ws(s, a + kw.len()), Class::StmtHead);
                    }
                    let head = kw + seq![' '] + s.subrange(a + kw.len(), h);
                    let (o, st1) = must_inner(s, h, st, f);
                    match o {
                        Out::Done(e, body) => match syn_expr_error(head + empty_block()) {
                            None => (Out::Done(e, seq![FragV::Code(head)] + body), st1),
                            Some(msg) => (cut_desc(w, msg), st1),
                        },
                        o => (o, st1),
                    }
                },
            }
        }
    }
}

/// `else if ...` branches from `p`, as many as follow.
pub open spec fn else_ifs(s: Seq<char>, p: int, st: St, f: Flavor) -> Step
    decreases s.len() - p, 3int,
{
    if p < 0 || p > s.len() {
        (Out::Back, st)
    } else {
        let w = ws(s, p);
        proof {
            lemma_run_end(s, p, Class::Space);
        }
        if at(s, w, kw_else()) && ws(s, w + 4) > w + 4 {
            let w2 = ws(s, w + 4);
            proof {
                lemma_run_end(s, w + 4, Class::Space);
            }
            let (o, st1) = keyword_stmt(s, w2, st, f, kw_if());
            match o {
                Out::Done(e, fr) => if p < e <= s.len() {
                    then_pre(seq![FragV::Code(kw_else())] + fr, else_ifs(s, e, st1, f))
                } else {
                    (Out::Back, st)
                },
                Out::Back => (Out::Done(p, Seq::empty()), st),
                Out::Cut(q, t) => (Out::Cut(q, t), st1),
            }
        } else {
            (Out::Done(p, Seq::empty()), st)
        }
    }
}

/// `else` and a braced body.
pub open spec fn else_tail(s: Seq<char>, p: int, st: St, f: Flavor) -> Step
    decreases s.len() - p, 3int,
{
    if p < 0 || p > s.len() {
        (Out::Back, st)
    } else {
        let w = ws(s, p);
        proof {
            lemma_run_end(s, p, Class::Space);
        }
        if at(s, w, kw_else()) {
            let w2 = ws(s, w + 4);
            proof {
                lemma_run_end(s, w + 4, Class::Space);
            }
            let (o, st1) = must_inner(s, w2, st, f);
            match o {
                Out::Done(e, b) => (Out::Done(e, seq![FragV::Code(kw_else())] + b), st1),
                o => (o, st1),
            }
        } else {
            (Out::Back, st)
        }
    }
}

/// A braced body that must be there.
pub open spec fn must_inner(s: Seq<char>, p: int, st: St, f: Flavor) -> Step
    decreases s.len() - p, 2int,
{
    if p < 0 || p > s.len() {
        (Out::Back, st)
    } else if char_at(s, p, '{') {
        inner_tc(s, p, st, f)
    } else {
        (cut_expect(p, Expect::OpenBrace), st)
    }
}

/// Content in braces (`inner_template_content`); the closing brace is
/// required once the opening one is there.
pub open spec fn inner_tc(s: Seq<char>, p: int, st: St, f: Flavor) -> Step
    decreases s.len() - p, 1int,
{
    if p < 0 || p > s.len() || !char_at(s, p, '{') {
        (Out::Back, st)
    } else {
        let (o, st1) = content(s, p + 1, st, f, true);
        match o {
            Out::Done(e, c) => if char_at(s, e, '}') {
                (Out::Done(e + 1, seq![FragV::Open] + c + seq![FragV::Close]), st1)
            } else {
                (cut_expect(e, Expect::CloseBrace), st1)
            },
            o => (o, st1),
        }
    }
}

/// A component `<Tag attrs/>` or `<Tag attrs>content</Tag>` at `p`.
pub open spec fn component(s: Seq<char>, p: int, st: St, f: Flavor) -> Step
    decreases s.len() - p, 7int,
{
    if p < 0 || p > s.len() || !char_at(s, p, '<') {
        (Out::Back, st)
    } else {
        let w = ws(s, p + 1);
        proof {
            lemma_run_end(s, p + 1, Class::Space);
        }
        match tag_ident(s, w) {
            None => (Out::Back, st),
            Some(te) => {
                proof {
                    lemma_run_end(s, w + 1, Class::AsciiAlnum);
                }
                let tag = s.subrange(w, te);
                let (ao, st1) = attributes(s, te, st, f);
                match ao {
                    Out::Done(ae, (lets, names)) => if te <= ae <= s.len() {
                        let w2 = ws(s, ae);
                        proof {
                            lemma_run_end(s, ae, Class::Space);
                        }
                        if at(s, w2, seq!['/', '>']) {
                            component_end(p, tag, w2 + 2, lets, names, Seq::empty(), st1)
                        } else if !char_at(s, w2, '>') {
                            (cut_expect(w2, Expect::Gt), st1)
                        } else {
                            let (co, st2) = content(s, w2 + 1, st1, f, false);
                            match co {
                                Out::Done(ce, body) => if !at(s, ce, seq!['<', '/']) {
                                    (cut_expect(ce, Expect::CloseTagStart), st2)
                                } else {
                                    let w3 = ws(s, ce + 2);
                                    match tag_ident(s, w3) {
                                        None => (cut_expect(w3, Expect::TagIdentifier), st2),
                                        Some(te2) => {
                                            let w4 = ws(s, te2);
                                            if char_at(s, w4, '>') {
                                                component_end(p, tag, w4 + 1, lets, names, body, st2)
                                            } else {
                                                (cut_expect(w4, Expect::Gt), st2)
                                            }
                                        },
                                    }
                                },
                                co => (co, st2),
                            }
                        }
                    } else {
                        (Out::Back, st)
                    },
                    Out::Back => (Out::Back, st),
                    Out::Cut(q, t) => (Out::Cut(q, t), st1),
                }
            },
        }
    }
}

/// The outcome of the attribute rules: bindings and names.
pub type AttrsStep = (Out<(Seq<FragV>, Seq<Seq<char>>)>, St);

/// Attributes from `p`, each after whitespace, as many as follow.
pub open spec fn attributes(s: Seq<char>, p: int, st: St, f: Flavor) -> AttrsStep
    decreases s.len() - p, 3int,
{
    if p < 0 || p > s.len() {
        (Out::Back, st)
    } else {
        let w = ws(s, p);
        proof {
            lemma_run_end(s, p, Class::Space);
        }
        if w == p {
            (Out::Done(p, (Seq::empty(), Seq::empty())), st)
        } else {
            let (o, st1) = attribute(s, w, st, f);
            match o {
                Out::Done(e, (fr, name)) => if p < e <= s.len() {
                    let (o2, st2) = attributes(s, e, st1, f);
                    match o2 {
                        Out::Done(e2, (frs, names)) => (
                            Out::Done(e2, (fr + frs, seq![name] + names)),
                            st2,
                        ),
                        o2 => (fail_as(o2), st2),
                    }
                } else {
                    (Out::Back, st)
                },
                Out::Back => (Out::Done(p, (Seq::empty(), Seq::empty())), st),
                Out::Cut(q, t) => (Out::Cut(q, t), st1),
            }
        }
    }
}

/// One attribute `name` or `name = value` at `q`; the name must be a Rust
/// identifier (by `syn`), and without a value it is `true`.
pub open spec fn attribute(s: Seq<char>, q: int, st: St, f: Flavor) -> (
    Out<(Seq<FragV>, Seq<char>)>,
    St,
)
    decreases s.len() - q, 3int,
{
    if q < 0 || q > s.len() {
        (Out::Back, st)
    } else {
        match attr_name(s, q) {
            None => (Out::Back, st),
            Some(ne) => {
                proof {
                    lemma_run_end(s, q + 1, Class::AsciiWord);
                    lemma_run_end(s, ne, Class::Space);
                }
                let name = s.subrange(q, ne);
                let w = ws(s, ne);
                let (vo, st1) = if char_at(s, w, '=') {
                    proof {
                        lemma_run_end(s, w + 1, Class::Space);
                    }
                    attr_value(s, ws(s, w + 1), st, f)
                } else {
                    (Out::Back, st)
                };
                match vo {
                    Out::Cut(c, t) => (Out::Cut(c, t), st1),
                    _ => {
                        let (end, v, st2) = match vo {
                            Out::Done(ve, v) => (ve, v, st1),
                            _ => (ne, AttrVal::Simple(ValueV::Bool(true)), st),
                        };
                        match syn_ident_error(name) {
                            Some(msg) => (cut_desc(q, msg), st2),
                            None => (Out::Done(end, (attr_frags(name, v), name)), st2),
                        }
                    },
                }
            },
        }
    }
}

/// An attribute value at `v`: `true`, `false`, a number, a quoted string
/// (which must lex as Rust), `@` and an expression, or a braced template.
pub open spec fn attr_value(s: Seq<char>, v: int, st: St, f: Flavor) -> (Out<AttrVal>, St)
    decreases s.len() - v, 2int,
{
    if v < 0 || v > s.len() {
        (Out::Back, st)
    } else if at(s, v, kw_true()) {
        (Out::Done(v + 4, AttrVal::Simple(ValueV::Bool(true))), st)
    } else if at(s, v, kw_false()) {
        (Out::Done(v + 5, AttrVal::Simple(ValueV::Bool(false))), st)
    } else if float_lexeme(s, v) is Some {
        let fe = float_lexeme(s, v)->0;
        (Out::Done(fe, AttrVal::Simple(ValueV::Float(s.subrange(v, fe)))), st)
    } else if quoted(s, v) is Some {
        let qe = quoted(s, v)->0;
        let lit = s.subrange(v, qe);
        match lex_error(lit) {
            None => (Out::Done(qe, AttrVal::Simple(ValueV::Str(lit))), st),
            Some(msg) => (cut_desc(v, msg), st),
        }
    } else if char_at(s, v, '@') && !(expr_value(s, v + 1, st, dialect(f)) is Back) {
        (expr_value(s, v + 1, st, dialect(f)), st)
    } else {
        let (o, st1) = inner_tc(s, v, st, f);
        match o {
            Out::Done(e, b) => (Out::Done(e, AttrVal::Template(b)), st1),
            o => (fail_as(o), st1),
        }
    }
}

/// A whole template: an optional byte order mark, whitespace (not in the
/// older inline grammar), optional parameters `@(...)`, content, and the end
/// of the text. A failure gives the position and trail that are reported.
pub open spec fn template(s: Seq<char>, st: St, f: Flavor) -> Step {
    let b = if char_at(s, 0, '\u{FEFF}') {
        1int
    } else {
        0int
    };
    let w = if f == Flavor::Macro {
        b
    } else {
        ws(s, b)
    };
    let (po, st1) = template_params(s, w, st, dialect(f));
    match po {
        Out::Cut(q, t) => (Out::Cut(q, t.push(CtxV::Label(Label::TemplateParameters))), st1),
        _ => {
            let (start, st2) = match po {
                Out::Done(e, _) => (e, st1),
                _ => (w, st),
            };
            let (co, st3) = content(s, start, st2, f, false);
            match co {
                Out::Done(e, c) => if e == s.len() {
                    (Out::Done(e, c), st3)
                } else {
                    (cut_expect(e, Expect::EndOfFile), st3)
                },
                co => (co, st3),
            }
        },
    }
}


/// No character of `s` is `@` or `<`, and it does not start with a byte
/// order mark.
pub open spec fn plain(s: Seq<char>) -> bool {
    &&& forall|i: int| 0 <= i < s.len() ==> s[i] != '@' && s[i] != '<'
    &&& !char_at(s, 0, '\u{FEFF}')
}

/// Where a template's content starts: the file and view grammars skip the
/// whitespace in front; the older inline grammar does not.
pub open spec fn content_start(s: Seq<char>, f: Flavor) -> int {
    if f == Flavor::Macro {
        0
    } else {
        ws(s, 0)
    }
}

/// Text holds neither `@` nor `<`: one write of all of it, and its length.
proof fn lemma_plain_text(s: Seq<char>, k: int, st: St, inner: bool)
    requires
        plain(s),
        0 <= k < s.len(),
        !inner,
    ensures
        text(s, k, st, inner) == (
            Out::Done(s.len() as int, seq![FragV::Write(s.subrange(k, s.len() as int))]),
            St { text_size: st.text_size + (s.len() - k) as nat, ..st },
        ),
{
    lemma_run_end(s, k, Class::Text);
    let e = run_end(s, k, Class::Text);
    if e < s.len() {
        assert(in_class(s[e], Class::Text));
    }
    assert(text_piece(s, k, inner) == Some((s.len() as int, s.subrange(k, s.len() as int))));
    assert(text_piece(s, s.len() as int, inner) is None);
    assert(text_from(s, s.len() as int, inner) == (s.len() as int, Seq::<char>::empty()));
    assert(s.subrange(k, s.len() as int) + Seq::<char>::empty() =~= s.subrange(k, s.len() as int));
}

/// Nothing is left at the end of a template: its content there is empty.
proof fn lemma_content_at_end(s: Seq<char>, st: St, f: Flavor)
    ensures
        content(s, s.len() as int, st, f, false) == (
            Out::Done(s.len() as int, Seq::<FragV>::empty()),
            st,
        ),
{
    let n = s.len() as int;
    assert(text_piece(s, n, false) is None);
    assert(text_from(s, n, false) == (n, Seq::<char>::empty()));
    assert(text(s, n, st, false).0 is Back);
    assert(component(s, n, st, f).0 is Back);
    assert(block(s, n, st, f) == (Out::<Seq<FragV>>::Back, st));
}

/// A template of plain text is written as it is: it compiles to one write
/// of everything after the whitespace it starts with (nothing when no text
/// is left), and the length of that text is counted.
pub proof fn plain_text_is_written(s: Seq<char>, st: St, f: Flavor)
    requires
        plain(s),
    ensures
        template(s, st, f).0 == Out::Done(
            s.len() as int,
            if content_start(s, f) < s.len() {
                seq![FragV::Write(s.subrange(content_start(s, f), s.len() as int))]
            } else {
                Seq::<FragV>::empty()
            },
        ),
        template(s, st, f).1 == (St {
            text_size: st.text_size + (s.len() - content_start(s, f)) as nat,
            ..st
        }),
{
    lemma_run_end(s, 0, Class::Space);
    let w = content_start(s, f);
    let n = s.len() as int;
    assert(!char_at(s, w, '@'));
    assert(template_params(s, w, st, dialect(f)).0 is Back);
    lemma_content_at_end(s, st, f);
    if w < n {
        lemma_plain_text(s, w, st, false);
        let st1 = St { text_size: st.text_size + (n - w) as nat, ..st };
        lemma_content_at_end(s, st1, f);
        let wr = seq![FragV::Write(s.subrange(w, n))];
        assert(wr + Seq::<FragV>::empty() =~= wr);
    } else {
        assert(w == n);
    }
}


proof fn lemma_true_value(s: Seq<char>, v: int, st: St, f: Flavor)
    requires
        0 <= v,
        at(s, v, kw_true()),
    ensures
        attr_value(s, v, st, f) == (Out::Done(v + 4, AttrVal::Simple(ValueV::Bool(true))), st),
{
}

proof fn lemma_false_value(s: Seq<char>, v: int, st: St, f: Flavor)
    requires
        0 <= v,
        at(s, v, kw_false()),
        !at(s, v, kw_true()),
    ensures
        attr_value(s, v, st, f) == (Out::Done(v + 5, AttrVal::Simple(ValueV::Bool(false))), st),
{
}

/// An attribute value that is the literal `true` or `false` binds the
/// boolean that literal denotes, and ends after the literal; the state is
/// left as it was.
pub proof fn boolean_attribute_values(s: Seq<char>, v: int, st: St, f: Flavor)
    requires
        0 <= v,
    ensures
        at(s, v, seq!['t', 'r', 'u', 'e']) ==> attr_value(s, v, st, f) == (
            Out::Done(v + 4, AttrVal::Simple(ValueV::Bool(true))),
            st,
        ),
        at(s, v, seq!['f', 'a', 'l', 's', 'e']) ==> attr_value(s, v, st, f) == (
            Out::Done(v + 5, AttrVal::Simple(ValueV::Bool(false))),
            st,
        ),
{
    if at(s, v, seq!['t', 'r', 'u', 'e']) {
        assert(seq!['t', 'r', 'u', 'e'] =~= kw_true());
        lemma_true_value(s, v, st, f);
    }
    if at(s, v, seq!['f', 'a', 'l', 's', 'e']) {
        assert(seq!['f', 'a', 'l', 's', 'e'] =~= kw_false());
        assert(s.subrange(v, v + 5)[0] == s[v]);
        assert(s[v] == 'f');
        assert(!at(s, v, kw_true())) by {
            if at(s, v, kw_true()) {
                assert(s.subrange(v, v + 4)[0] == s[v]);
                assert(kw_true()[0] == 't');
            }
        }
        lemma_false_value(s, v, st, f);
    }
}

/// A parenthesised expression is rendered escaped, in the file grammar,
/// exactly when no `#` precedes it, and in the older inline grammar exactly
/// when a `#` precedes it; the text rendered is what stands between the
/// parentheses.
pub proof fn parenthesised_escaping(s: Seq<char>, k: int, st: St)
    ensures
        simple_expr_paren(s, k, st, Dialect::File) matches Out::Done(e, (x, esc)) ==> esc == !char_at(
            s,
            k,
            '#',
        ) && x == s.subrange(if char_at(s, k, '#') { k + 2 } else { k + 1 }, e - 1),
        simple_expr_paren(s, k, st, Dialect::Macro) matches Out::Done(e, (x, esc)) ==> esc
            == char_at(s, k, '#') && x == s.subrange(
            if char_at(s, k, '#') {
                k + 2
            } else {
                k + 1
            },
            e - 1,
        ),
{
}

/// A simple expression is rendered escaped exactly when no `#` precedes it,
/// in both grammars.
pub proof fn simple_escaping(s: Seq<char>, k: int, st: St, d: Dialect)
    ensures
        simple_expr(s, k, st, d) matches Out::Done(_, (_, esc)) ==> esc == !char_at(s, k, '#'),
{
}


/// The text from `k` with each `@@` read as one `@`.
pub open spec fn unescaped(s: Seq<char>, k: int) -> Seq<char>
    decreases s.len() - k,
{
    if k < 0 || k >= s.len() {
        Seq::empty()
    } else if s[k] == '@' && k + 1 < s.len() && s[k + 1] == '@' {
        seq!['@'] + unescaped(s, k + 2)
    } else {
        seq![s[k]] + unescaped(s, k + 1)
    }
}

/// From `k` on, every `@` of `s` stands in a pair `@@`.
pub open spec fn at_signs_paired(s: Seq<char>, k: int) -> bool
    decreases s.len() - k,
{
    if k < 0 || k >= s.len() {
        true
    } else if s[k] == '@' {
        k + 1 < s.len() && s[k + 1] == '@' && at_signs_paired(s, k + 2)
    } else {
        at_signs_paired(s, k + 1)
    }
}

proof fn lemma_unescaped_run(s: Seq<char>, k: int, e: int)
    requires
        0 <= k <= e <= s.len(),
        forall|i: int| k <= i < e ==> s[i] != '@',
    ensures
        unescaped(s, k) == s.subrange(k, e) + unescaped(s, e),
        at_signs_paired(s, k) == at_signs_paired(s, e),
    decreases e - k,
{
    if k < e {
        lemma_unescaped_run(s, k + 1, e);
        assert(seq![s[k]] + (s.subrange(k + 1, e) + unescaped(s, e)) =~= s.subrange(k, e)
            + unescaped(s, e));
    } else {
        assert(s.subrange(k, e) + unescaped(s, e) =~= unescaped(s, e));
    }
}

proof fn lemma_escaped_text(s: Seq<char>, k: int)
    requires
        0 <= k <= s.len(),
        forall|i: int| 0 <= i < s.len() ==> s[i] != '<',
        at_signs_paired(s, k),
    ensures
        text_from(s, k, false) == (s.len() as int, unescaped(s, k)),
    decreases s.len() - k,
{
    let n = s.len() as int;
    if k == n {
        assert(text_piece(s, k, false) is None);
    } else if s[k] == '@' {
        assert(text_piece(s, k, false) == Some((k + 2, seq!['@'])));
        lemma_escaped_text(s, k + 2);
    } else {
        lemma_run_end(s, k, Class::Text);
        let e = run_end(s, k, Class::Text);
        assert forall|i: int| k <= i < e implies s[i] != '@' by {
            assert(in_class(s[i], Class::Text));
        }
        lemma_unescaped_run(s, k, e);
        lemma_escaped_text(s, e);
    }
}

/// A template without `<` whose `@`s all stand in pairs `@@` (after the
/// whitespace the grammar skips) writes its text with each `@@` read as one
/// `@`, in one write, and counts what it writes.
pub proof fn escaped_at_signs_are_written(s: Seq<char>, st: St, f: Flavor)
    requires
        forall|i: int| 0 <= i < s.len() ==> s[i] != '<',
        !char_at(s, 0, '\u{FEFF}'),
        at_signs_paired(s, content_start(s, f)),
    ensures
        template(s, st, f).0 == Out::Done(
            s.len() as int,
            if content_start(s, f) < s.len() {
                seq![FragV::Write(unescaped(s, content_start(s, f)))]
            } else {
                Seq::<FragV>::empty()
            },
        ),
        template(s, st, f).1 == (St {
            text_size: st.text_size + unescaped(s, content_start(s, f)).len(),
            ..st
        }),
{
    lemma_run_end(s, 0, Class::Space);
    let w = content_start(s, f);
    let n = s.len() as int;
    if char_at(s, w, '@') {
        assert(s[w + 1] == '@');
        lemma_run_end(s, w + 1, Class::Space);
        assert(ws(s, w + 1) == w + 1);
    }
    assert(template_params(s, w, st, dialect(f)).0 is Back);
    lemma_content_at_end(s, st, f);
    lemma_escaped_text(s, w);
    if w < n {
        let u = unescaped(s, w);
        assert(u.len() > 0);
        let st1 = St { text_size: st.text_size + u.len(), ..st };
        lemma_content_at_end(s, st1, f);
        let wr = seq![FragV::Write(u)];
        assert(wr + Seq::<FragV>::empty() =~= wr);
    } else {
        assert(unescaped(s, w) =~= Seq::<char>::empty());
    }
}

} // verus!
