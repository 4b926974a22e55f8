//! The rules of the template grammar that do not nest: literal text, `@use`,
//! code blocks, the small directives, expressions and template parameters.
//! Each is proved to compute the rule of the same name in `grammar`.
use vstd::prelude::*;
use crate::classes::{Class, at, char_at, has_class, in_class, is_char_at, lemma_run_end, run, run_end};
use crate::code::{Frag, FragV};
use crate::context::{Context, St};
use crate::classes::starts_at;
use crate::context::UseDirective;
use crate::grammar::{
    amp_end, byte_len, default_param_type, escaped_by, skip_bytes, fail_as, kw_as, kw_break, kw_child_content,
    kw_continue, kw_use, line_start, more_params, param, param_list, strip_back, strip_front,
    tag_start, text_from, text_piece, trim_matches, undefined_field, use_path, with_default,
};
use crate::lexer::{
    Dialect, chain, component_tag_identifier, group_tail, ident, lemma_ident, param_type, quoted,
    rust_identifier, skip_ws, string_line, tag_ident, ws,
};
use crate::names::{get_struct_field, struct_field_of};
use crate::syntax::{expr_error, parses_as_type, syn_expr_ok, syn_type_ok};
use crate::text::same_text;
use crate::names::{ends_with, extract_component_name, generate_fn_name, is_ending, template_suffix};
use crate::outcome::{Expect, PErr, Out, cut_at, cut_description, err_out};
use crate::rust_code::code_block;
use crate::syntax::{block_error, syn_block_error};
use crate::text::{append_str, chars_between, push_char, string_between, utf8_width};

verus! {

/// The result of a rule that emits code: its end and its fragments.
pub type Parsed = Result<(usize, Vec<Frag>), PErr>;

/// The outcome a `Parsed` result stands for.
pub open spec fn frags_out(r: Parsed) -> Out<Seq<FragV>> {
    match r {
        Ok((e, v)) => Out::Done(e as int, v.deep_view()),
        Err(e) => err_out(e),
    }
}

/// How far a rule at `i` in a text of length `n` got, and what it did to the
/// state (`a` before, `b` after): a success ends between `i` and `n` and
/// counts no more text than it read; backing off changes nothing; a
/// committed failure is inside the text.
pub open spec fn bounded<T>(r: Result<(usize, T), PErr>, i: int, n: int, a: St, b: St) -> bool {
    match r {
        Ok((e, _)) => i <= e <= n && b.text_size <= a.text_size + (e - i),
        Err(PErr::Back) => b == a,
        Err(PErr::Cut(p, _)) => p <= n && b.text_size <= a.text_size + (n - i),
    }
}

/// The room left for counting text from `i` on.
pub open spec fn room(st: St, i: int, n: int) -> bool {
    st.text_size + (n - i) <= usize::MAX
}

proof fn lemma_text_from(s: Seq<char>, k: int, inner: bool)
    requires
        0 <= k <= s.len(),
    ensures
        k <= text_from(s, k, inner).0 <= s.len(),
        text_from(s, k, inner).1.len() <= text_from(s, k, inner).0 - k,
    decreases s.len() - k,
{
    match text_piece(s, k, inner) {
        Some((k2, p)) => if k < k2 <= s.len() {
            lemma_text_from(s, k2, inner);
            if 0 <= k < s.len() && in_class(s[k], if inner { Class::InnerText } else { Class::Text }) {
                lemma_run_end(s, k, if inner { Class::InnerText } else { Class::Text });
            }
        },
        None => {},
    }
}

/// Whether a component tag (`<Name` or `</Name`) starts at `k`.
pub fn is_tag_start(s: &[char], k: usize) -> (r: bool)
    requires
        k <= s@.len(),
    ensures
        r == tag_start(s@, k as int),
{
    let _len = s.len();
    if !is_char_at(s, k, '<') {
        return false;
    }
    let w = skip_ws(s, k + 1);
    if component_tag_identifier(s, w).is_some() {
        return true;
    }
    if is_char_at(s, k + 1, '/') {
        let w2 = skip_ws(s, k + 2);
        return component_tag_identifier(s, w2).is_some();
    }
    false
}

/// Literal text at `k` (outside braces, or inside them with `inner`):
/// written out as one piece, and its length counted in the context.
pub(crate) fn text_rule(s: &[char], k: usize, ctx: &mut Context, inner: bool) -> (r: Parsed)
    requires
        k <= s@.len(),
        room(old(ctx)@, k as int, s@.len() as int),
    ensures
        (frags_out(r), final(ctx)@) == crate::grammar::text(s@, k as int, old(ctx)@, inner),
        bounded(r, k as int, s@.len() as int, old(ctx)@, final(ctx)@),
        r matches Ok((e, _)) ==> k < e,
        !(r matches Err(PErr::Cut(_, _))),
{
    let class = if inner {
        Class::InnerText
    } else {
        Class::Text
    };
    let mut out = String::new();
    let mut n: usize = 0;
    let mut j = k;
    proof {
        lemma_text_from(s@, k as int, inner);
    }
    loop
        invariant
            k <= j <= s@.len(),
            s@.len() == s.len(),
            class == (if inner { Class::InnerText } else { Class::Text }),
            n == out@.len(),
            n <= j - k,
            text_from(s@, k as int, inner) == (
                text_from(s@, j as int, inner).0,
                out@ + text_from(s@, j as int, inner).1,
            ),
        ensures
            k <= j <= s@.len(),
            n == out@.len(),
            n <= j - k,
            text_from(s@, k as int, inner) == (
                text_from(s@, j as int, inner).0,
                out@ + text_from(s@, j as int, inner).1,
            ),
            text_piece(s@, j as int, inner) is None,
        decreases s@.len() - j,
    {
        let ghost o = out@;
        if j < s.len() && has_class(s[j], class) {
            let e = run(s, j, class);
            proof {
                lemma_run_end(s@, j as int, class);
            }
            let mut m = j;
            while m < e
                invariant
                    j <= m <= e <= s@.len(),
                    s@.len() == s.len(),
                    out@ == o + s@.subrange(j as int, m as int),
                    n == out@.len(),
                    n <= m - k,
                    o.len() <= j - k,
                decreases e - m,
            {
                push_char(&mut out, s[m]);
                n = n + 1;
                m = m + 1;
                assert(out@ =~= o + s@.subrange(j as int, m as int));
            }
            proof {
                let t = text_from(s@, e as int, inner);
                assert(text_piece(s@, j as int, inner) == Some(
                    (e as int, s@.subrange(j as int, e as int)),
                ));
                assert(out@ + t.1 =~= o + (s@.subrange(j as int, e as int) + t.1));
            }
            j = e;
        } else if is_char_at(s, j, '@') && is_char_at(s, j + 1, '@') {
            push_char(&mut out, '@');
            n = n + 1;
            proof {
                let t = text_from(s@, j + 2, inner);
                assert(out@ + t.1 =~= o + (seq!['@'] + t.1));
            }
            j = j + 2;
        } else if j < s.len() && !(s[j] == '@' || (inner && s[j] == '}') || is_tag_start(s, j)) {
            let c = s[j];
            push_char(&mut out, c);
            n = n + 1;
            proof {
                let t = text_from(s@, j + 1, inner);
                assert(out@ + t.1 =~= o + (seq![c] + t.1));
            }
            j = j + 1;
        } else {
            proof {
                assert(text_piece(s@, j as int, inner) is None);
                assert(out@ + Seq::<char>::empty() =~= out@);
            }
            break;
        }
    }
    assert(text_from(s@, j as int, inner) == (j as int, Seq::<char>::empty()));
    assert(text_from(s@, k as int, inner) == (j as int, out@));
    if j > k {
        ctx.add_text_size(n);
        let v = vec![Frag::Write(out)];
        proof {
            assert(v.deep_view() =~= seq![FragV::Write(out@)]);
        }
        Ok((j, v))
    } else {
        Err(PErr::Back)
    }
}

/// Literal text outside braces (`text`): it stops at `@` and at component
/// tags.
pub fn text(s: &[char], k: usize, ctx: &mut Context) -> (r: Parsed)
    requires
        k <= s@.len(),
        room(old(ctx)@, k as int, s@.len() as int),
    ensures
        (frags_out(r), final(ctx)@) == crate::grammar::text(s@, k as int, old(ctx)@, false),
        bounded(r, k as int, s@.len() as int, old(ctx)@, final(ctx)@),
        r matches Ok((e, _)) ==> k < e,
{
    text_rule(s, k, ctx, false)
}

/// Literal text inside braces (`inner_text`): it also stops at `}`.
pub fn inner_text(s: &[char], k: usize, ctx: &mut Context) -> (r: Parsed)
    requires
        k <= s@.len(),
        room(old(ctx)@, k as int, s@.len() as int),
    ensures
        (frags_out(r), final(ctx)@) == crate::grammar::text(s@, k as int, old(ctx)@, true),
        bounded(r, k as int, s@.len() as int, old(ctx)@, final(ctx)@),
        r matches Ok((e, _)) ==> k < e,
{
    text_rule(s, k, ctx, true)
}

/// The template path that the quoted string `raw` names: the quotes of the
/// kind it opens with taken off both ends, and `.rs.html` added unless it is
/// there.
fn template_path(raw: &[char]) -> (r: String)
    ensures
        r@ == use_path(raw@),
{
    let _len = raw.len();
    let q = if raw.len() > 0 && raw[0] == '\'' {
        '\''
    } else {
        '"'
    };
    let mut f: usize = 0;
    while f < raw.len() && raw[f] == q
        invariant
            f <= raw@.len(),
            raw@.len() == raw.len(),
            strip_front(raw@, f as int, q) == strip_front(raw@, 0, q),
        decreases raw@.len() - f,
    {
        f = f + 1;
    }
    let mut b: usize = raw.len();
    while f < b && raw[b - 1] == q
        invariant
            f <= b <= raw@.len(),
            raw@.len() == raw.len(),
            strip_back(raw@, f as int, b as int, q) == strip_back(
                raw@,
                f as int,
                raw@.len() as int,
                q,
            ),
        decreases b - f,
    {
        b = b - 1;
    }
    assert(trim_matches(raw@, q) == raw@.subrange(f as int, b as int));
    let mut p = string_between(raw, f, b);
    let pc = chars_between(raw, f, b);
    proof {
        reveal_strlit(".rs.html");
        assert(".rs.html"@ =~= template_suffix());
    }
    if !is_ending(pc.as_slice(), ".rs.html") {
        append_str(&mut p, ".rs.html");
    }
    p
}

/// `use "path" [as Name] [;]` at `k`, after the `@`: records the component
/// `Name` (or the one named after the file) as defined by the template at
/// the path; it emits no code.
pub fn use_directive(s: &[char], k: usize, ctx: &mut Context, d: Dialect) -> (r: Parsed)
    requires
        k <= s@.len(),
    ensures
        (frags_out(r), final(ctx)@) == crate::grammar::use_directive(s@, k as int, old(ctx)@, d),
        bounded(r, k as int, s@.len() as int, old(ctx)@, final(ctx)@),
        r matches Ok((e, _)) ==> k < e,
{
    let _len = s.len();
    proof {
        reveal_strlit("use");
        reveal_strlit("as");
        assert("use"@ =~= kw_use());
        assert("as"@ =~= kw_as());
    }
    if !starts_at(s, k, "use") {
        return Err(PErr::Back);
    }
    let a = k + 3;
    let w = skip_ws(s, a);
    let qe = match string_line(s, w) {
        None => {
            if w > a {
                return Err(cut_at(w, Expect::Path));
            } else {
                return Err(PErr::Back);
            }
        },
        Some(qe) => qe,
    };
    let w2 = skip_ws(s, qe);
    let named = starts_at(s, w2, "as");
    let mut w3 = w2;
    let mut after = w2;
    if named {
        w3 = skip_ws(s, w2 + 2);
        match component_tag_identifier(s, w3) {
            None => {
                return Err(cut_at(w3, Expect::ComponentTagIdentifier));
            },
            Some(t) => {
                after = t;
            },
        }
    }
    let end = if is_char_at(s, after, ';') {
        after + 1
    } else {
        after
    };
    let raw = chars_between(s, w, qe);
    let path = template_path(raw.as_slice());
    let name = if named {
        string_between(s, w3, after)
    } else {
        match extract_component_name(path.as_str()) {
            Some(n) => n,
            None => {
                return Err(cut_at(k, Expect::InvalidComponentPath));
            },
        }
    };
    let fn_name = match d {
        Dialect::File => generate_fn_name(path.as_str()),
        Dialect::Macro => String::new(),
    };
    ctx.insert_use_directive(UseDirective::new(name, path, fn_name));
    let v: Vec<Frag> = Vec::new();
    assert(v.deep_view() =~= Seq::<FragV>::empty());
    Ok((end, v))
}

/// Where the error of a code block points (`block_error_position`): `k`
/// and the bytes of the lines of the block's text `t` before line `line`
/// plus `col` further in `s`, or the offset in characters where that falls
/// inside a character or past the end.
fn error_position(s: &[char], t: &[char], k: usize, line: usize, col: usize) -> (p: usize)
    requires
        k + t@.len() <= s@.len(),
    ensures
        p == crate::grammar::block_error_position(s@, k as int, t@, line as int, col as int),
        p <= s@.len(),
{
    let _len = t.len();
    let _slen = s.len();
    let mut j: usize = 0;
    let mut l = line;
    loop
        invariant
            j <= t@.len(),
            t@.len() == t.len(),
            line_start(t@, 0, line as int) == line_start(t@, j as int, l as int),
        ensures
            j <= t@.len(),
            line_start(t@, 0, line as int) == j,
        decreases t@.len() - j,
    {
        if l <= 1 || j >= t.len() {
            break;
        }
        let nl = run(t, j, Class::LineRest);
        if nl < t.len() {
            j = nl + 1;
            l = l - 1;
        } else {
            j = t.len();
            break;
        }
    }
    let mut bytes: u128 = 0;
    let mut i: usize = 0;
    while i < j
        invariant
            i <= j <= t@.len(),
            t@.len() == t.len(),
            bytes == byte_len(t@, 0, i as int),
            bytes <= 4 * i,
        decreases j - i,
    {
        bytes = bytes + utf8_width(t[i]) as u128;
        i = i + 1;
    }
    let b: u128 = bytes + col as u128;
    let mut q = k;
    let mut rem: u128 = b;
    while rem > 0 && q < s.len() && (utf8_width(s[q]) as u128) <= rem
        invariant
            k <= q <= s@.len(),
            s@.len() == s.len(),
            skip_bytes(s@, k as int, b as int) == skip_bytes(s@, q as int, rem as int),
        decreases s@.len() - q,
    {
        rem = rem - utf8_width(s[q]) as u128;
        q = q + 1;
    }
    if rem == 0 {
        return q;
    }
    if col <= s.len() - k - j {
        k + j + col
    } else {
        s.len()
    }
}

/// A code block `{ ... }` at `k` (with `after_at`, `@` and whitespace
/// before it): its statements, when `syn` reads it as a block; otherwise a
/// committed failure where `syn` points, with its message.
pub fn rust_block(s: &[char], k: usize, after_at: bool) -> (r: Parsed)
    requires
        k <= s@.len(),
    ensures
        frags_out(r) == crate::grammar::rust_block(s@, k as int, after_at),
        r matches Ok((e, _)) ==> k < e <= s@.len(),
        r matches Err(PErr::Cut(p, _)) ==> p <= s@.len(),
{
    let _len = s.len();
    let b = if after_at {
        if !is_char_at(s, k, '@') {
            return Err(PErr::Back);
        }
        skip_ws(s, k + 1)
    } else {
        k
    };
    let start = if after_at {
        k + 1
    } else {
        k
    };
    match crate::rust_code::block(s, b) {
        Ok(e) => {
            let t = string_between(s, start, e);
            match block_error(t.as_str()) {
                None => {
                    let v = vec![Frag::Stmts(t)];
                    assert(v.deep_view() =~= seq![FragV::Stmts(t@)]);
                    Ok((e, v))
                },
                Some((line, col, msg)) => {
                    let tc = chars_between(s, start, e);
                    let p = error_position(s, tc.as_slice(), k, line, col);
                    let c = cut_description(p, msg);
                    Err(c)
                },
            }
        },
        Err(e) => Err(e),
    }
}

/// `child_content` at `k`, alone or followed by `()`: renders the content
/// given to the component.
pub fn child_content_directive(s: &[char], k: usize, d: Dialect) -> (r: Parsed)
    requires
        k <= s@.len(),
    ensures
        frags_out(r) == crate::grammar::child_content_directive(s@, k as int, d),
        r matches Ok((e, _)) ==> k < e <= s@.len(),
        !(r matches Err(PErr::Cut(_, _))),
{
    let _len = s.len();
    proof {
        reveal_strlit("child_content");
        assert("child_content"@ =~= kw_child_content());
    }
    if !starts_at(s, k, "child_content") {
        return Err(PErr::Back);
    }
    let a = k + 13;
    let v = vec![Frag::ChildContent];
    assert(v.deep_view() =~= seq![FragV::ChildContent]);
    if is_char_at(s, a, '(') && is_char_at(s, a + 1, ')') {
        Ok((a + 2, v))
    } else if rust_identifier(s, a, d).is_none() {
        Ok((a, v))
    } else {
        Err(PErr::Back)
    }
}

/// `continue` at `k`, and the whitespace after it.
pub fn continue_directive(s: &[char], k: usize) -> (r: Parsed)
    requires
        k <= s@.len(),
    ensures
        frags_out(r) == crate::grammar::continue_directive(s@, k as int),
        r matches Ok((e, _)) ==> k < e <= s@.len(),
        !(r matches Err(PErr::Cut(_, _))),
{
    let _len = s.len();
    proof {
        reveal_strlit("continue");
        assert("continue"@ =~= kw_continue());
    }
    if !starts_at(s, k, "continue") {
        return Err(PErr::Back);
    }
    let v = vec![Frag::Continue];
    assert(v.deep_view() =~= seq![FragV::Continue]);
    Ok((skip_ws(s, k + 8), v))
}

/// `break` at `k`, and the whitespace after it.
pub fn break_directive(s: &[char], k: usize) -> (r: Parsed)
    requires
        k <= s@.len(),
    ensures
        frags_out(r) == crate::grammar::break_directive(s@, k as int),
        r matches Ok((e, _)) ==> k < e <= s@.len(),
        !(r matches Err(PErr::Cut(_, _))),
{
    let _len = s.len();
    proof {
        reveal_strlit("break");
        assert("break"@ =~= kw_break());
    }
    if !starts_at(s, k, "break") {
        return Err(PErr::Back);
    }
    let v = vec![Frag::Break];
    assert(v.deep_view() =~= seq![FragV::Break]);
    Ok((skip_ws(s, k + 5), v))
}

/// The result of an expression rule: its end, the expression's text, and
/// whether it is rendered escaped.
pub type ParsedExpr = Result<(usize, (String, bool)), PErr>;

pub open spec fn expr_out(r: ParsedExpr) -> Out<(Seq<char>, bool)> {
    match r {
        Ok((e, (x, b))) => Out::Done(e as int, (x@, b)),
        Err(e) => err_out(e),
    }
}

/// Whether `name` is one of `names`.
fn has_name(names: &Vec<String>, name: &str) -> (r: bool)
    ensures
        r == names.deep_view().contains(name@),
{
    let mut i: usize = 0;
    while i < names.len()
        invariant
            i <= names@.len(),
            forall|m: int| 0 <= m < i ==> names.deep_view()[m] != name@,
        decreases names@.len() - i,
    {
        if same_text(names[i].as_str(), name) {
            assert(names.deep_view()[i as int] == name@);
            return true;
        }
        i = i + 1;
    }
    proof {
        if names.deep_view().contains(name@) {
            let m = choose|m: int| 0 <= m < names.deep_view().len() && names.deep_view()[m] == name@;
            assert(names.deep_view()[m] != name@);
        }
    }
    false
}

/// Whether `expr` reads a field of `self` that the rendered struct does not
/// have (the file grammar checks this; the inline one does not).
fn field_undefined(expr: &str, ctx: &Context, d: Dialect) -> (r: bool)
    ensures
        r == undefined_field(expr@, ctx@, d),
{
    match d {
        Dialect::Macro => false,
        Dialect::File => match get_struct_field(expr) {
            Some(f) => !has_name(ctx.struct_fields(), f.as_str()),
            None => false,
        },
    }
}

fn is_escaped(hash: bool, d: Dialect) -> (r: bool)
    ensures
        r == escaped_by(hash, d),
{
    match d {
        Dialect::File => !hash,
        Dialect::Macro => hash,
    }
}

/// The checks every expression passes: `syn` reads it, and it reads no
/// undefined field; a failure is committed at `k`.
fn checked_expr(expr: String, k: usize, e: usize, esc: bool, ctx: &Context, d: Dialect) -> (r: ParsedExpr)
    ensures
        expr_out(r) == (if !syn_expr_ok(expr@) {
            Out::Cut(k as int, seq![crate::outcome::CtxV::Expected(Expect::InvalidExpression)])
        } else if undefined_field(expr@, ctx@, d) {
            Out::Cut(k as int, seq![crate::outcome::CtxV::Expected(Expect::UndefinedField)])
        } else {
            Out::Done(e as int, (expr@, esc))
        }),
        r matches Ok((e2, _)) ==> e2 == e,
        r matches Err(PErr::Cut(p, _)) ==> p == k,
        !(r matches Err(PErr::Back)),
{
    if expr_error(expr.as_str()).is_some() {
        Err(cut_at(k, Expect::InvalidExpression))
    } else if field_undefined(expr.as_str(), ctx, d) {
        Err(cut_at(k, Expect::UndefinedField))
    } else {
        Ok((e, (expr, esc)))
    }
}

/// `(expr)` or `#(expr)` at `k`: the text between the parentheses, which must
/// be an expression, and whether it is rendered escaped.
pub fn simple_expr_paren(s: &[char], k: usize, ctx: &Context, d: Dialect) -> (r: ParsedExpr)
    requires
        k <= s@.len(),
    ensures
        expr_out(r) == crate::grammar::simple_expr_paren(s@, k as int, ctx@, d),
        r matches Ok((e, _)) ==> k < e <= s@.len(),
        r matches Err(PErr::Cut(p, _)) ==> p <= s@.len(),
{
    let _len = s.len();
    let hash = is_char_at(s, k, '#');
    let h = if hash {
        k + 1
    } else {
        k
    };
    if !is_char_at(s, h, '(') {
        return Err(PErr::Back);
    }
    match group_tail(s, h + 1, ')') {
        None => Err(PErr::Back),
        Some(e) => {
            let expr = string_between(s, h + 1, e - 1);
            checked_expr(expr, k, e, is_escaped(hash, d), ctx, d)
        },
    }
}

/// Whether what follows `k` (after whitespace) is `{`, `(` (file grammar),
/// `if`, `for`, `use` or `child_content` standing as a word.
fn is_reserved_start(s: &[char], k: usize, d: Dialect) -> (r: bool)
    requires
        k <= s@.len(),
    ensures
        r == crate::grammar::reserved_start(s@, k as int, d),
{
    let _len = s.len();
    proof {
        reveal_strlit("if");
        reveal_strlit("for");
        reveal_strlit("use");
        reveal_strlit("child_content");
        assert("if"@ =~= crate::grammar::kw_if());
        assert("for"@ =~= crate::grammar::kw_for());
        assert("use"@ =~= kw_use());
        assert("child_content"@ =~= kw_child_content());
    }
    let w = skip_ws(s, k);
    let p = if is_char_at(s, w, '{') || (d == Dialect::File && is_char_at(s, w, '(')) {
        w + 1
    } else if starts_at(s, w, "if") {
        w + 2
    } else if starts_at(s, w, "for") || starts_at(s, w, "use") {
        w + 3
    } else if starts_at(s, w, "child_content") {
        w + 13
    } else {
        return false;
    };
    (p < s.len() && crate::text::space(s[p])) || rust_identifier(s, p, d).is_none()
}

/// `expr` or `#expr` at `k`: leading `&`s, an identifier and its chain of
/// links, which must be an expression; and whether it is rendered escaped.
pub fn simple_expr(s: &[char], k: usize, ctx: &Context, d: Dialect) -> (r: ParsedExpr)
    requires
        k <= s@.len(),
    ensures
        expr_out(r) == crate::grammar::simple_expr(s@, k as int, ctx@, d),
        r matches Ok((e, _)) ==> k < e <= s@.len(),
        r matches Err(PErr::Cut(p, _)) ==> p <= s@.len(),
{
    let _len = s.len();
    if is_reserved_start(s, k, d) {
        return Err(PErr::Back);
    }
    let hash = is_char_at(s, k, '#');
    let h = if hash {
        k + 1
    } else {
        k
    };
    let mut a = h;
    while a < s.len() && s[a] == '&'
        invariant
            h <= a <= s@.len(),
            s@.len() == s.len(),
            amp_end(s@, a as int) == amp_end(s@, h as int),
        decreases s@.len() - a,
    {
        a = a + 1;
    }
    match rust_identifier(s, a, d) {
        None => Err(PErr::Back),
        Some(ie) => {
            let e = chain(s, ie, d);
            let expr = string_between(s, h, e);
            checked_expr(expr, k, e, !hash, ctx, d)
        },
    }
}

/// The result of the parameter rule: its end, the name, and the type if one
/// is given.
pub type ParsedParam = Result<(usize, (String, Option<String>)), PErr>;

pub open spec fn param_out(r: ParsedParam) -> Out<(Seq<char>, Option<Seq<char>>)> {
    match r {
        Ok((e, x)) => Out::Done(e as int, x.deep_view()),
        Err(e) => err_out(e),
    }
}

/// One template parameter at `k`: an identifier, then `: Type` or nothing.
fn template_param(s: &[char], k: usize, d: Dialect) -> (r: ParsedParam)
    requires
        k <= s@.len(),
    ensures
        param_out(r) == param(s@, k as int, d),
        r matches Ok((e, _)) ==> k < e <= s@.len(),
        r matches Err(PErr::Cut(p, _)) ==> p <= s@.len(),
        !(r matches Err(PErr::Back)),
{
    let _len = s.len();
    let w = skip_ws(s, k);
    match rust_identifier(s, w, d) {
        None => Err(cut_at(w, Expect::Identifier)),
        Some(ie) => {
            if !(is_char_at(s, ie, ':') || is_char_at(s, ie, ',') || is_char_at(s, ie, ')') || (ie
                < s.len() && crate::classes::is_whitespace(s[ie]))) {
                return Err(cut_at(ie, Expect::Identifier));
            }
            let w2 = skip_ws(s, ie);
            let name = string_between(s, w, ie);
            if is_char_at(s, w2, ':') {
                let w3 = skip_ws(s, w2 + 1);
                match param_type(s, w3) {
                    None => Err(cut_at(w3, Expect::Type)),
                    Some(pe) => {
                        let ty = string_between(s, w3, pe);
                        if parses_as_type(ty.as_str()) {
                            Ok((skip_ws(s, pe), (name, Some(ty))))
                        } else {
                            Err(cut_at(w3, Expect::Type))
                        }
                    },
                }
            } else {
                Ok((w2, (name, None)))
            }
        },
    }
}

/// The outcome with `acc` put in front of the parameters of a success.
pub open spec fn params_after(
    acc: Seq<(Seq<char>, Option<Seq<char>>)>,
    o: Out<Seq<(Seq<char>, Option<Seq<char>>)>>,
) -> Out<Seq<(Seq<char>, Option<Seq<char>>)>> {
    match o {
        Out::Done(e, xs) => Out::Done(e, acc + xs),
        _ => o,
    }
}

/// The parameter list after `(` and whitespace.
fn template_param_list(s: &[char], w: usize, d: Dialect) -> (r: Result<
    (usize, Vec<(String, Option<String>)>),
    PErr,
>)
    requires
        w <= s@.len(),
    ensures
        match r {
            Ok((e, ps)) => param_list(s@, w as int, d) == Out::Done(e as int, ps.deep_view())
                && w <= e <= s@.len(),
            Err(x) => param_list(s@, w as int, d) == err_out::<
                Seq<(Seq<char>, Option<Seq<char>>)>,
            >(x),
        },
        r matches Err(PErr::Cut(p, _)) ==> p <= s@.len(),
{
    let _len = s.len();
    if d == Dialect::File && is_char_at(s, w, ')') {
        let v: Vec<(String, Option<String>)> = Vec::new();
        assert(v.deep_view() =~= Seq::<(Seq<char>, Option<Seq<char>>)>::empty());
        return Ok((w, v));
    }
    let (e, x) = match template_param(s, w, d) {
        Ok(ok) => ok,
        Err(err) => {
            return Err(err);
        },
    };
    let mut acc: Vec<(String, Option<String>)> = Vec::new();
    let ghost xv = x.deep_view();
    acc.push(x);
    assert(acc.deep_view() =~= seq![xv]);
    let mut p = e;
    loop
        invariant
            w <= p <= s@.len(),
            s@.len() == s.len(),
            param_list(s@, w as int, d) == params_after(acc.deep_view(), more_params(s@, p as int, d)),
        decreases s@.len() - p,
    {
        if !is_char_at(s, p, ',') {
            assert(acc.deep_view() + Seq::<(Seq<char>, Option<Seq<char>>)>::empty() =~= acc.deep_view());
            return Ok((p, acc));
        }
        match template_param(s, p + 1, d) {
            Ok((e2, x2)) => {
                let ghost a0 = acc.deep_view();
                let ghost x2v = x2.deep_view();
                acc.push(x2);
                proof {
                    assert(acc.deep_view() =~= a0.push(x2v));
                    match more_params(s@, e2 as int, d) {
                        Out::Done(e3, xs) => {
                            assert(a0 + (seq![x2v] + xs) =~= a0.push(x2v) + xs);
                        },
                        _ => {},
                    }
                }
                p = e2;
            },
            Err(err) => {
                return Err(err);
            },
        }
    }
}

/// The parameters with the default type for those given without one.
fn with_defaults(ps: Vec<(String, Option<String>)>, d: Dialect) -> (r: Vec<(String, String)>)
    ensures
        r.deep_view() == with_default(ps.deep_view(), d),
{
    let mut rest = ps;
    let ghost all = rest.deep_view();
    let mut out: Vec<(String, String)> = Vec::new();
    let ghost mut n: int = 0;
    while rest.len() > 0
        invariant
            0 <= n <= all.len(),
            rest.deep_view() == all.subrange(n, all.len() as int),
            out.deep_view() == with_default(all.subrange(0, n), d),
        decreases rest.len(),
    {
        let ghost before = rest.deep_view();
        let entry = rest.remove(0);
        proof {
            assert(before[0] == entry.deep_view());
            assert(rest.deep_view() =~= before.drop_first());
        }
        let (name, ty) = entry;
        let t = match ty {
            Some(t) => t,
            None => match d {
                Dialect::File => "impl ::rshtml::View".to_owned(),
                Dialect::Macro => "impl ::std::fmt::Display".to_owned(),
            },
        };
        let ghost item = (name@, t@);
        out.push((name, t));
        proof {
            assert(before[0] == all[n]);
            assert(rest.deep_view() =~= all.subrange(n + 1, all.len() as int));
            assert(item == (all[n].0, match all[n].1 {
                Some(t) => t,
                None => default_param_type(d),
            }));
            assert(with_default(all.subrange(0, n + 1), d) =~= with_default(all.subrange(0, n), d).push(item));
            n = n + 1;
        }
    }
    assert(all.subrange(0, n) =~= all);
    out
}

/// `@(name: Type, ...)` at `i`, with an optional `;`: records the template's
/// parameters in the context; it emits no code.
pub fn template_params(s: &[char], i: usize, ctx: &mut Context, d: Dialect) -> (r: Parsed)
    requires
        i <= s@.len(),
    ensures
        (frags_out(r), final(ctx)@) == crate::grammar::template_params(s@, i as int, old(ctx)@, d),
        bounded(r, i as int, s@.len() as int, old(ctx)@, final(ctx)@),
        r matches Ok((e, _)) ==> i < e,
{
    let _len = s.len();
    if !is_char_at(s, i, '@') {
        return Err(PErr::Back);
    }
    let w = skip_ws(s, i + 1);
    if !is_char_at(s, w, '(') {
        return Err(PErr::Back);
    }
    match template_param_list(s, skip_ws(s, w + 1), d) {
        Ok((p, ps)) => {
            let w2 = skip_ws(s, p);
            if !is_char_at(s, w2, ')') {
                return Err(PErr::Back);
            }
            let w3 = skip_ws(s, w2 + 1);
            let end = if is_char_at(s, w3, ';') {
                w3 + 1
            } else {
                w2 + 1
            };
            ctx.set_template_params(with_defaults(ps, d));
            let v: Vec<Frag> = Vec::new();
            assert(v.deep_view() =~= Seq::<FragV>::empty());
            Ok((end, v))
        },
        Err(e) => Err(e),
    }
}

} // verus!
