//! The template compiler: content, blocks, components and statements, each
//! proved to compute the rule of the same name in `markup`.
use vstd::prelude::*;
use crate::classes::{is_char_at, starts_at};
use crate::code::{Frag, FragV, Value, ValueV, escape_or_raw, render};
use crate::context::Context;
use crate::directives::{
    Parsed, ParsedExpr, bounded, break_directive, child_content_directive, continue_directive,
    expr_out, frags_out, room, rust_block, simple_expr, simple_expr_paren, template_params,
    text_rule, use_directive,
};
use crate::grammar::{empty_block, kw_else, kw_false, kw_for, kw_if, kw_true, pre};
use crate::lexer::{
    Dialect, attribute_name, component_tag_identifier, float, scan_stmt_head, skip_ws, string_line,
};
use crate::markup::{
    AttrVal, AttrsStep, Flavor, attr_frags, component_code, dialect, missing_component, then_pre,
};
use crate::order::sort_names_in_place;
use crate::outcome::{CtxV, Expect, Label, Out, PErr, cut_at, cut_description, err_out, labeled};
use crate::syntax::{expr_error, ident_error, lex_check, syn_expr_error};
use crate::text::{append_str, chars_of, push_char, string_between};

verus! {

/// An attribute value as the compiler holds it.
pub enum AttrValue {
    Simple(Value),
    Template(Vec<Frag>),
}

impl DeepView for AttrValue {
    type V = AttrVal;

    open spec fn deep_view(&self) -> AttrVal {
        match self {
            AttrValue::Simple(v) => AttrVal::Simple(v.deep_view()),
            AttrValue::Template(b) => AttrVal::Template(b.deep_view()),
        }
    }
}

pub fn flavor_dialect(f: Flavor) -> (d: Dialect)
    ensures
        d == dialect(f),
{
    match f {
        Flavor::Macro => Dialect::Macro,
        _ => Dialect::File,
    }
}

proof fn lemma_pre_pre(a: Seq<FragV>, b: Seq<FragV>, o: Out<Seq<FragV>>)
    ensures
        pre(a, pre(b, o)) == pre(a + b, o),
{
    match o {
        Out::Done(e, c) => {
            assert(a + (b + c) =~= (a + b) + c);
        },
        _ => {},
    }
}

/// Appends the fragments of `more` to `acc`.
fn extend(acc: &mut Vec<Frag>, more: Vec<Frag>)
    ensures
        final(acc).deep_view() == old(acc).deep_view() + more.deep_view(),
{
    let mut m = more;
    let ghost a = acc.deep_view();
    let ghost b = m.deep_view();
    acc.append(&mut m);
    assert(acc.deep_view() =~= a + b);
}

/// A result with `l` added to the trail of a committed failure.
fn label(r: Parsed, l: Label) -> (q: Parsed)
    ensures
        frags_out(q) == labeled(frags_out(r), l),
        r matches Ok(x) ==> q == Ok::<(usize, Vec<Frag>), PErr>(x),
        r matches Err(PErr::Back) ==> q matches Err(PErr::Back),
        r matches Err(PErr::Cut(p, _)) ==> q matches Err(PErr::Cut(p2, _)) && p2 == p,
{
    match r {
        Ok(x) => Ok(x),
        Err(e) => Err(crate::outcome::with_label(e, l)),
    }
}

/// An expression rendered as code.
fn render_expr(r: ParsedExpr) -> (q: Parsed)
    ensures
        frags_out(q) == crate::grammar::rendered(expr_out(r)),
        r matches Ok((e, _)) ==> q matches Ok((e2, _)) && e2 == e,
        r matches Err(PErr::Back) ==> q matches Err(PErr::Back),
        r matches Err(PErr::Cut(p, _)) ==> q matches Err(PErr::Cut(p2, _)) && p2 == p,
{
    match r {
        Ok((e, (x, esc))) => {
            proof {
                reveal_strlit("");
                assert(""@ =~= Seq::<char>::empty());
            }
            let v = vec![escape_or_raw(x, esc, "")];
            assert(v.deep_view() =~= seq![render(x@, esc, Seq::empty())]);
            Ok((e, v))
        },
        Err(e) => Err(e),
    }
}

/// Template content from `i` (`template_content`; inside braces with
/// `inner`): text and blocks, as many as follow.
fn content_rule(s: &[char], i: usize, ctx: &mut Context, f: Flavor, inner: bool) -> (r: Parsed)
    requires
        i <= s@.len(),
        room(old(ctx)@, i as int, s@.len() as int),
    ensures
        (frags_out(r), final(ctx)@) == crate::markup::content(s@, i as int, old(ctx)@, f, inner),
        bounded(r, i as int, s@.len() as int, old(ctx)@, final(ctx)@),
        !(r matches Err(PErr::Back)),
    decreases s@.len() - i, 9int,
{
    let _len = s.len();
    let mut acc: Vec<Frag> = Vec::new();
    let mut p = i;
    assert(then_pre(acc.deep_view(), crate::markup::content(s@, p as int, ctx@, f, inner)) == crate::markup::content(s@, i as int, old(ctx)@, f, inner)) by {
        let c = crate::markup::content(s@, i as int, old(ctx)@, f, inner);
        match c.0 {
            Out::Done(e, x) => {
                assert(Seq::<FragV>::empty() + x =~= x);
            },
            _ => {},
        }
    }
    loop
        invariant
            i <= p <= s@.len(),
            s@.len() == s.len(),
            room(old(ctx)@, i as int, s@.len() as int),
            ctx@.text_size <= old(ctx)@.text_size + (p - i),
            crate::markup::content(s@, i as int, old(ctx)@, f, inner) == then_pre(
                acc.deep_view(),
                crate::markup::content(s@, p as int, ctx@, f, inner),
            ),
        decreases s@.len() - p,
    {
        let ghost st = ctx@;
        let ghost a = acc.deep_view();
        match text_rule(s, p, ctx, inner) {
            Ok((e, fr)) => {
                proof {
                    lemma_pre_pre(a, fr.deep_view(), crate::markup::content(s@, e as int, ctx@, f, inner).0);
                }
                extend(&mut acc, fr);
                p = e;
                continue;
            },
            Err(_) => {},
        }
        match block(s, p, ctx, f) {
            Ok((e, fr)) => {
                proof {
                    lemma_pre_pre(a, fr.deep_view(), crate::markup::content(s@, e as int, ctx@, f, inner).0);
                }
                extend(&mut acc, fr);
                p = e;
            },
            Err(PErr::Back) => {
                assert(a + Seq::<FragV>::empty() =~= a);
                return Ok((p, acc));
            },
            Err(c) => {
                return Err(c);
            },
        }
    }
}

/// Template content from `i` outside braces (`template_content`).
pub fn template_content(s: &[char], i: usize, ctx: &mut Context, f: Flavor) -> (r: Parsed)
    requires
        i <= s@.len(),
        room(old(ctx)@, i as int, s@.len() as int),
    ensures
        (frags_out(r), final(ctx)@) == crate::markup::content(s@, i as int, old(ctx)@, f, false),
        bounded(r, i as int, s@.len() as int, old(ctx)@, final(ctx)@),
        !(r matches Err(PErr::Back)),
{
    content_rule(s, i, ctx, f, false)
}

/// A block at `p`: a component, or `@`, whitespace and a directive.
pub fn block(s: &[char], p: usize, ctx: &mut Context, f: Flavor) -> (r: Parsed)
    requires
        p <= s@.len(),
        room(old(ctx)@, p as int, s@.len() as int),
    ensures
        (frags_out(r), final(ctx)@) == crate::markup::block(s@, p as int, old(ctx)@, f),
        bounded(r, p as int, s@.len() as int, old(ctx)@, final(ctx)@),
        r matches Ok((e, _)) ==> p < e,
    decreases s@.len() - p, 8int,
{
    let _len = s.len();
    if f == Flavor::Macro {
        if is_char_at(s, p, '@') {
            let w = skip_ws(s, p + 1);
            return macro_directive(s, w, ctx);
        }
        return Err(PErr::Back);
    }
    match component(s, p, ctx, f) {
        Err(PErr::Back) => {
            if is_char_at(s, p, '@') {
                let w = skip_ws(s, p + 1);
                at_directive(s, w, ctx, f)
            } else {
                Err(PErr::Back)
            }
        },
        r => label(r, Label::Component),
    }
}

/// The directives of the older inline macro after `@` and whitespace.
fn macro_directive(s: &[char], w: usize, ctx: &mut Context) -> (r: Parsed)
    requires
        w <= s@.len(),
    ensures
        (frags_out(r), final(ctx)@) == crate::markup::macro_directive(s@, w as int, old(ctx)@),
        bounded(r, w as int, s@.len() as int, old(ctx)@, final(ctx)@),
        r matches Ok((e, _)) ==> w < e,
{
    let d = Dialect::Macro;
    match use_directive(s, w, ctx, d) {
        Err(PErr::Back) => {},
        r => {
            return label(r, Label::UseDirective);
        },
    }
    match rust_block(s, w, true) {
        Err(PErr::Back) => {},
        r => {
            return label(r, Label::CodeBlock);
        },
    }
    match child_content_directive(s, w, d) {
        Err(PErr::Back) => {},
        r => {
            return label(r, Label::ChildContent);
        },
    }
    match continue_directive(s, w) {
        Err(PErr::Back) => {},
        r => {
            return label(r, Label::Continue);
        },
    }
    match break_directive(s, w) {
        Err(PErr::Back) => {},
        r => {
            return label(r, Label::Break);
        },
    }
    label(render_expr(simple_expr_paren(s, w, ctx, d)), Label::ParenthesizedExpression)
}

/// What may follow `@` in the file and view grammars.
fn at_directive(s: &[char], w: usize, ctx: &mut Context, f: Flavor) -> (r: Parsed)
    requires
        w <= s@.len(),
        room(old(ctx)@, w as int, s@.len() as int),
    ensures
        (frags_out(r), final(ctx)@) == crate::markup::at_directive(s@, w as int, old(ctx)@, f),
        bounded(r, w as int, s@.len() as int, old(ctx)@, final(ctx)@),
        r matches Ok((e, _)) ==> w < e,
    decreases s@.len() - w, 6int,
{
    let d = flavor_dialect(f);
    match use_directive(s, w, ctx, d) {
        Err(PErr::Back) => {},
        r => {
            return label(r, Label::UseDirective);
        },
    }
    match rust_block(s, w, false) {
        Err(PErr::Back) => {},
        r => {
            return label(r, Label::CodeBlock);
        },
    }
    match rust_stmt(s, w, ctx, f) {
        Err(PErr::Back) => {},
        r => {
            return label(r, Label::Statement);
        },
    }
    match child_content_directive(s, w, d) {
        Err(PErr::Back) => {},
        r => {
            return label(r, Label::ChildContent);
        },
    }
    match continue_directive(s, w) {
        Err(PErr::Back) => {},
        r => {
            return label(r, Label::Continue);
        },
    }
    match break_directive(s, w) {
        Err(PErr::Back) => {},
        r => {
            return label(r, Label::Break);
        },
    }
    match render_expr(simple_expr_paren(s, w, ctx, d)) {
        Err(PErr::Back) => {},
        r => {
            return label(r, Label::ParenthesizedExpression);
        },
    }
    match render_expr(simple_expr(s, w, ctx, d)) {
        Err(PErr::Back) => {},
        r => {
            return label(r, Label::Expression);
        },
    }
    if f == Flavor::File {
        Err(cut_at(w, Expect::ValidExpression))
    } else {
        Err(PErr::Back)
    }
}

/// `@if` with its `else if` and `else` branches, or `@for`, at `w`.
pub fn rust_stmt(s: &[char], w: usize, ctx: &mut Context, f: Flavor) -> (r: Parsed)
    requires
        w <= s@.len(),
        room(old(ctx)@, w as int, s@.len() as int),
    ensures
        (frags_out(r), final(ctx)@) == crate::markup::rust_stmt(s@, w as int, old(ctx)@, f),
        bounded(r, w as int, s@.len() as int, old(ctx)@, final(ctx)@),
        r matches Ok((e, _)) ==> w < e,
    decreases s@.len() - w, 5int,
{
    let ghost st = ctx@;
    assert(crate::markup::rust_stmt(s@, w as int, st, f) == crate::markup::either(
        crate::markup::if_chain(s@, w as int, st, f),
        crate::markup::keyword_stmt(s@, w as int, st, f, kw_for()),
    ));
    match if_chain(s, w, ctx, f) {
        Err(PErr::Back) => {
            proof {
                reveal_strlit("for");
                assert("for"@ =~= kw_for());
            }
            keyword_stmt(s, w, ctx, f, "for")
        },
        r => r,
    }
}

/// An `if` statement, its `else if` branches, and an optional `else`.
fn if_chain(s: &[char], w: usize, ctx: &mut Context, f: Flavor) -> (r: Parsed)
    requires
        w <= s@.len(),
        room(old(ctx)@, w as int, s@.len() as int),
    ensures
        (frags_out(r), final(ctx)@) == crate::markup::if_chain(s@, w as int, old(ctx)@, f),
        bounded(r, w as int, s@.len() as int, old(ctx)@, final(ctx)@),
        r matches Ok((e, _)) ==> w < e,
    decreases s@.len() - w, 4int,
{
    proof {
        reveal_strlit("if");
        assert("if"@ =~= kw_if());
    }
    let (e, mut head) = match keyword_stmt(s, w, ctx, f, "if") {
        Ok(x) => x,
        Err(x) => {
            return Err(x);
        },
    };
    let (e2, mid) = match else_ifs(s, e, ctx, f) {
        Ok(x) => x,
        Err(x) => {
            return Err(x);
        },
    };
    match else_tail(s, e2, ctx, f) {
        Ok((e3, last)) => {
            extend(&mut head, mid);
            extend(&mut head, last);
            Ok((e3, head))
        },
        Err(PErr::Back) => {
            extend(&mut head, mid);
            Ok((e2, head))
        },
        Err(c) => Err(c),
    }
}

/// The code of a statement whose head is `head` and whose body `body` ends
/// at `e`: the head, then the body, when `syn` reads the head followed by
/// `{}` as an expression; a committed failure at `w` otherwise.
fn statement_code(head: String, e: usize, body: Vec<Frag>, w: usize) -> (r: Parsed)
    ensures
        frags_out(r) == (match syn_expr_error(head@ + empty_block()) {
            None => Out::Done(e as int, seq![FragV::Code(head@)] + body.deep_view()),
            Some(msg) => crate::grammar::cut_desc(w as int, msg),
        }),
        r matches Ok((e2, _)) ==> e2 == e,
        r matches Err(PErr::Cut(p, _)) ==> p == w,
        !(r matches Err(PErr::Back)),
{
    let mut probe = head.clone();
    proof {
        reveal_strlit(" {}");
        assert(" {}"@ =~= empty_block());
    }
    append_str(&mut probe, " {}");
    match expr_error(probe.as_str()) {
        None => {
            let mut v = vec![Frag::Code(head)];
            assert(v.deep_view() =~= seq![FragV::Code(head@)]);
            extend(&mut v, body);
            Ok((e, v))
        },
        Some(msg) => Err(cut_description(w, msg)),
    }
}

/// `kw` (`if` or `for`), a head and a braced body at `w`; `syn` must read
/// the head followed by `{}` as an expression.
fn keyword_stmt(s: &[char], w: usize, ctx: &mut Context, f: Flavor, kw: &str) -> (r: Parsed)
    requires
        w <= s@.len(),
        room(old(ctx)@, w as int, s@.len() as int),
        kw@ == kw_if() || kw@ == kw_for(),
    ensures
        (frags_out(r), final(ctx)@) == crate::markup::keyword_stmt(
            s@,
            w as int,
            old(ctx)@,
            f,
            kw@,
        ),
        bounded(r, w as int, s@.len() as int, old(ctx)@, final(ctx)@),
        r matches Ok((e, _)) ==> w < e,
    decreases s@.len() - w, 3int,
{
    let _len = s.len();
    let a = skip_ws(s, w);
    if !starts_at(s, a, kw) {
        return Err(PErr::Back);
    }
    let kl = chars_of(kw).len();
    let h = match scan_stmt_head(s, a + kl) {
        None => {
            return Err(PErr::Back);
        },
        Some(h) => h,
    };
    let mut head = kw.to_owned();
    push_char(&mut head, ' ');
    let hs = string_between(s, a + kl, h);
    append_str(&mut head, hs.as_str());
    assert(head@ =~= kw@ + seq![' '] + s@.subrange(a + kw@.len(), h as int));
    let ghost st = ctx@;
    let ghost inner = crate::markup::must_inner(s@, h as int, st, f);
    assert(crate::markup::keyword_stmt(s@, w as int, st, f, kw@) == match inner.0 {
        Out::Done(e, body) => match syn_expr_error(head@ + empty_block()) {
            None => (Out::Done(e, seq![FragV::Code(head@)] + body), inner.1),
            Some(msg) => (crate::grammar::cut_desc(w as int, msg), inner.1),
        },
        o => (o, inner.1),
    });
    match must_inner(s, h, ctx, f) {
        Ok((e, body)) => statement_code(head, e, body, w),
        Err(x) => Err(x),
    }
}

/// `else if ...` branches from `p`, as many as follow.
fn else_ifs(s: &[char], p: usize, ctx: &mut Context, f: Flavor) -> (r: Parsed)
    requires
        p <= s@.len(),
        room(old(ctx)@, p as int, s@.len() as int),
    ensures
        (frags_out(r), final(ctx)@) == crate::markup::else_ifs(s@, p as int, old(ctx)@, f),
        bounded(r, p as int, s@.len() as int, old(ctx)@, final(ctx)@),
        !(r matches Err(PErr::Back)),
    decreases s@.len() - p, 3int,
{
    let _len = s.len();
    proof {
        reveal_strlit("if");
        reveal_strlit("else");
        assert("if"@ =~= kw_if());
        assert("else"@ =~= kw_else());
    }
    let mut acc: Vec<Frag> = Vec::new();
    let mut q = p;
    assert(then_pre(acc.deep_view(), crate::markup::else_ifs(s@, q as int, ctx@, f)) == crate::markup::else_ifs(s@, p as int, old(ctx)@, f)) by {
        match crate::markup::else_ifs(s@, p as int, old(ctx)@, f).0 {
            Out::Done(e, x) => {
                assert(Seq::<FragV>::empty() + x =~= x);
            },
            _ => {},
        }
    }
    loop
        invariant
            p <= q <= s@.len(),
            s@.len() == s.len(),
            room(old(ctx)@, p as int, s@.len() as int),
            "if"@ == kw_if(),
            "else"@ == kw_else(),
            ctx@.text_size <= old(ctx)@.text_size + (q - p),
            crate::markup::else_ifs(s@, p as int, old(ctx)@, f) == then_pre(
                acc.deep_view(),
                crate::markup::else_ifs(s@, q as int, ctx@, f),
            ),
        decreases s@.len() - q,
    {
        let ghost a = acc.deep_view();
        let w = skip_ws(s, q);
        if !(starts_at(s, w, "else") && skip_ws(s, w + 4) > w + 4) {
            assert(a + Seq::<FragV>::empty() =~= a);
            return Ok((q, acc));
        }
        let w2 = skip_ws(s, w + 4);
        match keyword_stmt(s, w2, ctx, f, "if") {
            Ok((e, fr)) => {
                let mut item = vec![Frag::Code("else".to_owned())];
                assert(item.deep_view() =~= seq![FragV::Code(kw_else())]);
                extend(&mut item, fr);
                proof {
                    lemma_pre_pre(a, item.deep_view(), crate::markup::else_ifs(s@, e as int, ctx@, f).0);
                }
                extend(&mut acc, item);
                q = e;
            },
            Err(PErr::Back) => {
                assert(a + Seq::<FragV>::empty() =~= a);
                return Ok((q, acc));
            },
            Err(c) => {
                return Err(c);
            },
        }
    }
}

/// `else` and a braced body at `p`.
fn else_tail(s: &[char], p: usize, ctx: &mut Context, f: Flavor) -> (r: Parsed)
    requires
        p <= s@.len(),
        room(old(ctx)@, p as int, s@.len() as int),
    ensures
        (frags_out(r), final(ctx)@) == crate::markup::else_tail(s@, p as int, old(ctx)@, f),
        bounded(r, p as int, s@.len() as int, old(ctx)@, final(ctx)@),
        r matches Ok((e, _)) ==> p < e,
    decreases s@.len() - p, 3int,
{
    let _len = s.len();
    proof {
        reveal_strlit("else");
        assert("else"@ =~= kw_else());
    }
    let w = skip_ws(s, p);
    if !starts_at(s, w, "else") {
        return Err(PErr::Back);
    }
    let w2 = skip_ws(s, w + 4);
    match must_inner(s, w2, ctx, f) {
        Ok((e, b)) => {
            let mut v = vec![Frag::Code("else".to_owned())];
            assert(v.deep_view() =~= seq![FragV::Code(kw_else())]);
            extend(&mut v, b);
            Ok((e, v))
        },
        Err(x) => Err(x),
    }
}

/// A braced body that must be at `p`.
fn must_inner(s: &[char], p: usize, ctx: &mut Context, f: Flavor) -> (r: Parsed)
    requires
        p <= s@.len(),
        room(old(ctx)@, p as int, s@.len() as int),
    ensures
        (frags_out(r), final(ctx)@) == crate::markup::must_inner(s@, p as int, old(ctx)@, f),
        bounded(r, p as int, s@.len() as int, old(ctx)@, final(ctx)@),
        r matches Ok((e, _)) ==> p < e,
        !(r matches Err(PErr::Back)),
    decreases s@.len() - p, 2int,
{
    if is_char_at(s, p, '{') {
        inner_template_content(s, p, ctx, f)
    } else {
        Err(cut_at(p, Expect::OpenBrace))
    }
}

/// Content in braces at `p` (`inner_template_content`); once the opening
/// brace is there, the closing one is required.
pub fn inner_template_content(s: &[char], p: usize, ctx: &mut Context, f: Flavor) -> (r: Parsed)
    requires
        p <= s@.len(),
        room(old(ctx)@, p as int, s@.len() as int),
    ensures
        (frags_out(r), final(ctx)@) == crate::markup::inner_tc(s@, p as int, old(ctx)@, f),
        bounded(r, p as int, s@.len() as int, old(ctx)@, final(ctx)@),
        r matches Ok((e, _)) ==> p < e,
        r matches Err(PErr::Back) ==> !crate::classes::char_at(s@, p as int, '{'),
    decreases s@.len() - p, 1int,
{
    let _len = s.len();
    if !is_char_at(s, p, '{') {
        return Err(PErr::Back);
    }
    match content_rule(s, p + 1, ctx, f, true) {
        Ok((e, c)) => {
            if is_char_at(s, e, '}') {
                let mut v = vec![Frag::Open];
                assert(v.deep_view() =~= seq![FragV::Open]);
                extend(&mut v, c);
                let close = vec![Frag::Close];
                assert(close.deep_view() =~= seq![FragV::Close]);
                extend(&mut v, close);
                Ok((e + 1, v))
            } else {
                Err(cut_at(e, Expect::CloseBrace))
            }
        },
        Err(x) => Err(x),
    }
}

/// The end of a component whose tag `tag` started at `p`: the code that
/// binds its attributes, passes its body and calls the function of the
/// imported component; a committed failure when no `@use` imported it.
fn component_finish(
    p: usize,
    tag: String,
    end: usize,
    lets: Vec<Frag>,
    names: Vec<String>,
    body: Vec<Frag>,
    ctx: &Context,
) -> (r: Parsed)
    ensures
        (frags_out(r), ctx@) == crate::markup::component_end(
            p as int,
            tag@,
            end as int,
            lets.deep_view(),
            names.deep_view(),
            body.deep_view(),
            ctx@,
        ),
        r matches Ok((e, _)) ==> e == end,
        r matches Err(PErr::Cut(q, _)) ==> q == p,
        !(r matches Err(PErr::Back)),
{
    match ctx.find_use_directive(tag.as_str()) {
        None => {
            let mut msg = "attempt to use a missing component: component `".to_owned();
            append_str(&mut msg, tag.as_str());
            append_str(&mut msg, "` is used but not found");
            Err(cut_description(p, msg))
        },
        Some(u) => {
            let fn_name = u.fn_name().to_owned();
            let mut args = names;
            sort_names_in_place(&mut args);
            let mut v = vec![Frag::Open];
            assert(v.deep_view() =~= seq![FragV::Open]);
            extend(&mut v, lets);
            let open_child = vec![Frag::ChildOpen];
            assert(open_child.deep_view() =~= seq![FragV::ChildOpen]);
            extend(&mut v, open_child);
            extend(&mut v, body);
            let ghost av = args.deep_view();
            let tail = vec![Frag::ChildClose, Frag::Call { fn_name, args }, Frag::Close];
            assert(tail.deep_view() =~= seq![
                FragV::ChildClose,
                FragV::Call { fn_name: fn_name@, args: av },
                FragV::Close,
            ]);
            extend(&mut v, tail);
            Ok((end, v))
        },
    }
}

/// A component `<Tag attrs/>` or `<Tag attrs>content</Tag>` at `p`.
pub fn component(s: &[char], p: usize, ctx: &mut Context, f: Flavor) -> (r: Parsed)
    requires
        p <= s@.len(),
        room(old(ctx)@, p as int, s@.len() as int),
    ensures
        (frags_out(r), final(ctx)@) == crate::markup::component(s@, p as int, old(ctx)@, f),
        bounded(r, p as int, s@.len() as int, old(ctx)@, final(ctx)@),
        r matches Ok((e, _)) ==> p < e,
    decreases s@.len() - p, 7int,
{
    let _len = s.len();
    if !is_char_at(s, p, '<') {
        return Err(PErr::Back);
    }
    let w = skip_ws(s, p + 1);
    let te = match component_tag_identifier(s, w) {
        None => {
            return Err(PErr::Back);
        },
        Some(te) => te,
    };
    let tag = string_between(s, w, te);
    let (ae, (lets, names)) = match attributes(s, te, ctx, f) {
        Ok(x) => x,
        Err(x) => {
            return Err(x);
        },
    };
    let w2 = skip_ws(s, ae);
    proof {
        reveal_strlit("/>");
        reveal_strlit("</");
        assert("/>"@ =~= seq!['/', '>']);
        assert("</"@ =~= seq!['<', '/']);
    }
    if starts_at(s, w2, "/>") {
        let empty: Vec<Frag> = Vec::new();
        assert(empty.deep_view() =~= Seq::<FragV>::empty());
        return component_finish(p, tag, w2 + 2, lets, names, empty, ctx);
    }
    if !is_char_at(s, w2, '>') {
        return Err(cut_at(w2, Expect::Gt));
    }
    let (ce, body) = match content_rule(s, w2 + 1, ctx, f, false) {
        Ok(x) => x,
        Err(x) => {
            return Err(x);
        },
    };
    if !starts_at(s, ce, "</") {
        return Err(cut_at(ce, Expect::CloseTagStart));
    }
    let w3 = skip_ws(s, ce + 2);
    match component_tag_identifier(s, w3) {
        None => Err(cut_at(w3, Expect::TagIdentifier)),
        Some(te2) => {
            let w4 = skip_ws(s, te2);
            if is_char_at(s, w4, '>') {
                component_finish(p, tag, w4 + 1, lets, names, body, ctx)
            } else {
                Err(cut_at(w4, Expect::Gt))
            }
        },
    }
}

/// The result of the attribute rules: bindings and names.
pub type ParsedAttrs = Result<(usize, (Vec<Frag>, Vec<String>)), PErr>;

pub open spec fn attrs_out(r: ParsedAttrs) -> Out<(Seq<FragV>, Seq<Seq<char>>)> {
    match r {
        Ok((e, x)) => Out::Done(e as int, x.deep_view()),
        Err(e) => err_out(e),
    }
}

/// The attribute outcome with bindings `f` and names `n` put in front.
pub open spec fn attrs_then(f: Seq<FragV>, n: Seq<Seq<char>>, r: AttrsStep) -> AttrsStep {
    (
        match r.0 {
            Out::Done(e, (a, b)) => Out::Done(e, (f + a, n + b)),
            Out::Cut(q, t) => Out::Cut(q, t),
            Out::Back => Out::Back,
        },
        r.1,
    )
}

/// Attributes from `p`, each after whitespace, as many as follow.
fn attributes(s: &[char], p: usize, ctx: &mut Context, f: Flavor) -> (r: ParsedAttrs)
    requires
        p <= s@.len(),
        room(old(ctx)@, p as int, s@.len() as int),
    ensures
        (attrs_out(r), final(ctx)@) == crate::markup::attributes(s@, p as int, old(ctx)@, f),
        bounded(r, p as int, s@.len() as int, old(ctx)@, final(ctx)@),
        !(r matches Err(PErr::Back)),
    decreases s@.len() - p, 3int,
{
    let _len = s.len();
    let mut frs: Vec<Frag> = Vec::new();
    let mut names: Vec<String> = Vec::new();
    let mut q = p;
    assert(attrs_then(frs.deep_view(), names.deep_view(), crate::markup::attributes(s@, q as int, ctx@, f)) == crate::markup::attributes(s@, p as int, old(ctx)@, f)) by {
        match crate::markup::attributes(s@, p as int, old(ctx)@, f).0 {
            Out::Done(e, (a, b)) => {
                assert(Seq::<FragV>::empty() + a =~= a);
                assert(Seq::<Seq<char>>::empty() + b =~= b);
            },
            _ => {},
        }
    }
    loop
        invariant
            p <= q <= s@.len(),
            s@.len() == s.len(),
            room(old(ctx)@, p as int, s@.len() as int),
            ctx@.text_size <= old(ctx)@.text_size + (q - p),
            crate::markup::attributes(s@, p as int, old(ctx)@, f) == attrs_then(
                frs.deep_view(),
                names.deep_view(),
                crate::markup::attributes(s@, q as int, ctx@, f),
            ),
        decreases s@.len() - q,
    {
        let ghost fa = frs.deep_view();
        let ghost na = names.deep_view();
        let w = skip_ws(s, q);
        if w == q {
            assert(fa + Seq::<FragV>::empty() =~= fa);
            assert(na + Seq::<Seq<char>>::empty() =~= na);
            return Ok((q, (frs, names)));
        }
        match attribute(s, w, ctx, f) {
            Ok((e, (fr, name))) => {
                let ghost fv = fr.deep_view();
                let ghost nv = name@;
                extend(&mut frs, fr);
                names.push(name);
                proof {
                    assert(names.deep_view() =~= na.push(nv));
                    match crate::markup::attributes(s@, e as int, ctx@, f).0 {
                        Out::Done(e2, (a, b)) => {
                            assert(fa + (fv + a) =~= (fa + fv) + a);
                            assert(na + (seq![nv] + b) =~= na.push(nv) + b);
                        },
                        _ => {},
                    }
                }
                q = e;
            },
            Err(PErr::Back) => {
                assert(fa + Seq::<FragV>::empty() =~= fa);
                assert(na + Seq::<Seq<char>>::empty() =~= na);
                return Ok((q, (frs, names)));
            },
            Err(c) => {
                return Err(c);
            },
        }
    }
}

/// The code that binds attribute `name` to its value.
fn bind_attribute(name: String, v: AttrValue) -> (r: Vec<Frag>)
    ensures
        r.deep_view() == attr_frags(name@, v.deep_view()),
{
    match v {
        AttrValue::Simple(x) => {
            let ghost xv = x.deep_view();
            let r = vec![Frag::Let { name, value: x }];
            assert(r.deep_view() =~= seq![FragV::Let { name: name@, value: xv }]);
            r
        },
        AttrValue::Template(body) => {
            let ghost n = name@;
            let mut r = vec![Frag::LetClosureOpen(name)];
            assert(r.deep_view() =~= seq![FragV::LetClosureOpen(n)]);
            extend(&mut r, body);
            let close = vec![Frag::LetClosureClose];
            assert(close.deep_view() =~= seq![FragV::LetClosureClose]);
            extend(&mut r, close);
            r
        },
    }
}

/// One attribute `name` or `name = value` at `q`.
fn attribute(s: &[char], q: usize, ctx: &mut Context, f: Flavor) -> (r: Result<
    (usize, (Vec<Frag>, String)),
    PErr,
>)
    requires
        q <= s@.len(),
        room(old(ctx)@, q as int, s@.len() as int),
    ensures
        (match r {
            Ok((e, x)) => Out::Done(e as int, x.deep_view()),
            Err(e) => err_out(e),
        }, final(ctx)@) == crate::markup::attribute(s@, q as int, old(ctx)@, f),
        bounded(r, q as int, s@.len() as int, old(ctx)@, final(ctx)@),
        r matches Ok((e, _)) ==> q < e,
    decreases s@.len() - q, 3int,
{
    let _len = s.len();
    let ne = match attribute_name(s, q) {
        None => {
            return Err(PErr::Back);
        },
        Some(ne) => ne,
    };
    let name = string_between(s, q, ne);
    let w = skip_ws(s, ne);
    let value = if is_char_at(s, w, '=') {
        attr_value(s, skip_ws(s, w + 1), ctx, f)
    } else {
        Err(PErr::Back)
    };
    let (end, v) = match value {
        Ok(x) => x,
        Err(PErr::Back) => (ne, AttrValue::Simple(Value::Bool(true))),
        Err(c) => {
            return Err(c);
        },
    };
    match ident_error(name.as_str()) {
        Some(msg) => Err(cut_description(q, msg)),
        None => {
            let fr = bind_attribute(name.clone(), v);
            Ok((end, (fr, name)))
        },
    }
}

/// A simple or parenthesised expression as an attribute value at `k`.
fn expr_attr(s: &[char], k: usize, ctx: &Context, d: Dialect) -> (r: Result<
    (usize, AttrValue),
    PErr,
>)
    requires
        k <= s@.len(),
    ensures
        match r {
            Ok((e, v)) => Out::Done(e as int, v.deep_view()),
            Err(e) => err_out(e),
        } == crate::markup::expr_value(s@, k as int, ctx@, d),
        r matches Ok((e, _)) ==> k < e <= s@.len(),
        r matches Err(PErr::Cut(p, _)) ==> p <= s@.len(),
{
    match simple_expr_paren(s, k, ctx, d) {
        Ok((e, (x, b))) => Ok((e, AttrValue::Simple(Value::Expr(x, b)))),
        Err(PErr::Back) => match simple_expr(s, k, ctx, d) {
            Ok((e, (x, b))) => Ok((e, AttrValue::Simple(Value::Expr(x, b)))),
            Err(c) => Err(c),
        },
        Err(c) => Err(c),
    }
}

/// An attribute value at `v`.
fn attr_value(s: &[char], v: usize, ctx: &mut Context, f: Flavor) -> (r: Result<
    (usize, AttrValue),
    PErr,
>)
    requires
        v <= s@.len(),
        room(old(ctx)@, v as int, s@.len() as int),
    ensures
        (match r {
            Ok((e, x)) => Out::Done(e as int, x.deep_view()),
            Err(e) => err_out(e),
        }, final(ctx)@) == crate::markup::attr_value(s@, v as int, old(ctx)@, f),
        bounded(r, v as int, s@.len() as int, old(ctx)@, final(ctx)@),
        r matches Ok((e, _)) ==> v < e,
    decreases s@.len() - v, 2int,
{
    let _len = s.len();
    proof {
        reveal_strlit("true");
        reveal_strlit("false");
        assert("true"@ =~= kw_true());
        assert("false"@ =~= kw_false());
    }
    if starts_at(s, v, "true") {
        return Ok((v + 4, AttrValue::Simple(Value::Bool(true))));
    }
    if starts_at(s, v, "false") {
        return Ok((v + 5, AttrValue::Simple(Value::Bool(false))));
    }
    if let Some(fe) = float(s, v) {
        return Ok((fe, AttrValue::Simple(Value::Float(string_between(s, v, fe)))));
    }
    if let Some(qe) = string_line(s, v) {
        let lit = string_between(s, v, qe);
        return match lex_check(lit.as_str()) {
            None => Ok((qe, AttrValue::Simple(Value::Str(lit)))),
            Some(msg) => Err(cut_description(v, msg)),
        };
    }
    if is_char_at(s, v, '@') {
        match expr_attr(s, v + 1, ctx, flavor_dialect(f)) {
            Err(PErr::Back) => {},
            r => {
                return r;
            },
        }
    }
    match inner_template_content(s, v, ctx, f) {
        Ok((e, b)) => Ok((e, AttrValue::Template(b))),
        Err(x) => Err(x),
    }
}

/// A whole template: an optional byte order mark, whitespace (except in the
/// older inline grammar), optional parameters, content, and the end of the
/// text. A failure carries the position and trail to report.
pub fn template(s: &[char], ctx: &mut Context, f: Flavor) -> (r: Parsed)
    requires
        room(old(ctx)@, 0, s@.len() as int),
    ensures
        (frags_out(r), final(ctx)@) == crate::markup::template(s@, old(ctx)@, f),
        r matches Err(PErr::Cut(p, _)) ==> p <= s@.len(),
        !(r matches Err(PErr::Back)),
{
    let _len = s.len();
    let b: usize = if is_char_at(s, 0, '\u{FEFF}') {
        1
    } else {
        0
    };
    let w = if f == Flavor::Macro {
        b
    } else {
        skip_ws(s, b)
    };
    let start = match template_params(s, w, ctx, flavor_dialect(f)) {
        Ok((e, _)) => e,
        Err(PErr::Back) => w,
        Err(c) => {
            return Err(crate::outcome::with_label(c, Label::TemplateParameters));
        },
    };
    match content_rule(s, start, ctx, f, false) {
        Ok((e, c)) => {
            if e == s.len() {
                Ok((e, c))
            } else {
                Err(cut_at(e, Expect::EndOfFile))
            }
        },
        Err(x) => Err(x),
    }
}

} // verus!
