//! How a failed compilation is reported: the trail of a failure as text,
//! the line and column of a position, and the message that shows the line
//! with a caret under the column.
use vstd::prelude::*;
use crate::classes::{Class, run, run_end};
use crate::names::{digit_value, digits_value, hex_digit};
use crate::outcome::{Ctx, CtxV, Expect, Label};
use crate::text::{append_str, chars_of, push_char, string_between};

verus! {

/// `n` in decimal (`{}` on an integer).
pub open spec fn decimal(n: nat) -> Seq<char>
    decreases n,
{
    if n < 10 {
        seq![hex_digit(n as int)]
    } else {
        decimal(n / 10).push(hex_digit((n % 10) as int))
    }
}

/// Written in decimal, `n` reads back as `n`: its digits are `0`-`9`, it
/// has at least one, and it starts with `0` only when `n` is 0.
pub proof fn decimal_reads_back(n: nat)
    ensures
        digits_value(decimal(n), 10) == n,
        decimal(n).len() > 0,
        forall|i: int| 0 <= i < decimal(n).len() ==> '0' <= #[trigger] decimal(n)[i] && decimal(
            n,
        )[i] <= '9',
        n > 0 ==> decimal(n)[0] != '0',
    decreases n,
{
    if n < 10 {
        let c = hex_digit(n as int);
        assert(decimal(n) =~= seq![c]);
        assert(seq![c].drop_last() =~= Seq::<char>::empty());
        assert(digits_value(Seq::<char>::empty(), 10) == 0);
        assert(seq![c].last() == c);
        assert(c as int == n + 48);
        assert(digit_value(c) == n);
    } else {
        let q = n / 10;
        let d = (n % 10) as int;
        decimal_reads_back(q);
        let c = hex_digit(d);
        assert(c as int == d + 48);
        assert(decimal(n) == decimal(q).push(c));
        assert(decimal(n).drop_last() =~= decimal(q));
        assert(decimal(n).last() == c);
        assert(digit_value(c) == d);
        assert(digits_value(decimal(n), 10) == digits_value(decimal(q), 10) * 10 + d);
        assert(q * 10 + d == n) by (nonlinear_arith)
            requires
                q == n / 10,
                d == n % 10,
        ;
        assert forall|i: int| 0 <= i < decimal(n).len() implies '0' <= #[trigger] decimal(n)[i]
            && decimal(n)[i] <= '9' by {
            if i < decimal(q).len() {
                assert(decimal(n)[i] == decimal(q)[i]);
            }
        }
        assert(decimal(n)[0] == decimal(q)[0]);
    }
}

/// Appends `n` in decimal.
pub fn push_decimal(out: &mut String, n: usize)
    ensures
        final(out)@ == old(out)@ + decimal(n as nat),
    decreases n,
{
    let d = n % 10;
    let c: char = ((d as u8) + 48) as char;
    assert(c == hex_digit(d as int)) by {
        assert((((d as u8) + 48) as u8) as char == ((d + 48) as u32) as char);
    }
    if n >= 10 {
        push_decimal(out, n / 10);
    }
    push_char(out, c);
    proof {
        if n < 10 {
            assert(d == n);
        }
    }
}

/// The text of a label, as the grammar names its rules.
pub open spec fn label_text(l: Label) -> Seq<char> {
    match l {
        Label::TemplateParameters => "template parameters"@,
        Label::HtmlText => "html text"@,
        Label::Component => "component"@,
        Label::UseDirective => "use directive"@,
        Label::CodeBlock => "code block"@,
        Label::Statement => "statement"@,
        Label::ChildContent => "child content"@,
        Label::Continue => "continue"@,
        Label::Break => "break"@,
        Label::ParenthesizedExpression => "parenthesized expression"@,
        Label::Expression => "expression"@,
    }
}

/// What a failure that expected `x` says.
pub open spec fn expect_text(x: Expect) -> Seq<char> {
    match x {
        Expect::EndOfFile => "expected `end of file`"@,
        Expect::ValidExpression => "expected `valid RsHtml expression`"@,
        Expect::CloseParen => "expected `)`"@,
        Expect::Identifier => "expected `identifier`"@,
        Expect::Type => "expected `type`"@,
        Expect::Path => "expected `path`"@,
        Expect::ComponentTagIdentifier => "expected `component tag identfier`"@,
        Expect::OpenBrace => "expected `{`"@,
        Expect::CloseBrace => "expected `}`"@,
        Expect::Gt => "expected `>`"@,
        Expect::CloseTagStart => "expected `</`"@,
        Expect::TagIdentifier => "expected `tag identifier`"@,
        Expect::CloseBraceChar => "expected `}`"@,
        Expect::InvalidExpression => "invalid expression"@,
        Expect::UndefinedField => "attempt to use undefined struct field"@,
        Expect::InvalidComponentPath => "invalid component path"@,
    }
}

/// One entry of a trail as text: `in` and the rule for a label, what was
/// expected, or the description itself.
pub open spec fn ctx_text(c: CtxV) -> Seq<char> {
    match c {
        CtxV::Label(l) => "in "@ + label_text(l),
        CtxV::Expected(x) => expect_text(x),
        CtxV::Description(d) => d,
    }
}

/// A trail as text: its entries from the outermost (the last added) to the
/// innermost, joined by `: `.
pub open spec fn trail_text(t: Seq<CtxV>) -> Seq<char>
    decreases t.len(),
{
    if t.len() == 0 {
        Seq::empty()
    } else if t.len() == 1 {
        ctx_text(t[0])
    } else {
        ctx_text(t.last()) + ": "@ + trail_text(t.drop_last())
    }
}

/// A trail reads from its outermost entry (the last one added) inwards:
/// adding an entry puts its text in front, followed by `: `.
pub proof fn trail_reads_outside_in(t: Seq<CtxV>, x: CtxV)
    ensures
        trail_text(seq![x]) == ctx_text(x),
        t.len() > 0 ==> trail_text(t.push(x)) == ctx_text(x) + ": "@ + trail_text(t),
{
    assert(seq![x].last() == x);
    assert(t.push(x).last() == x);
    assert(t.push(x).drop_last() =~= t);
}

fn label_str(l: Label) -> (r: &'static str)
    ensures
        r@ == label_text(l),
{
    match l {
        Label::TemplateParameters => "template parameters",
        Label::HtmlText => "html text",
        Label::Component => "component",
        Label::UseDirective => "use directive",
        Label::CodeBlock => "code block",
        Label::Statement => "statement",
        Label::ChildContent => "child content",
        Label::Continue => "continue",
        Label::Break => "break",
        Label::ParenthesizedExpression => "parenthesized expression",
        Label::Expression => "expression",
    }
}

fn expect_str(x: Expect) -> (r: &'static str)
    ensures
        r@ == expect_text(x),
{
    match x {
        Expect::EndOfFile => "expected `end of file`",
        Expect::ValidExpression => "expected `valid RsHtml expression`",
        Expect::CloseParen => "expected `)`",
        Expect::Identifier => "expected `identifier`",
        Expect::Type => "expected `type`",
        Expect::Path => "expected `path`",
        Expect::ComponentTagIdentifier => "expected `component tag identfier`",
        Expect::OpenBrace => "expected `{`",
        Expect::CloseBrace => "expected `}`",
        Expect::Gt => "expected `>`",
        Expect::CloseTagStart => "expected `</`",
        Expect::TagIdentifier => "expected `tag identifier`",
        Expect::CloseBraceChar => "expected `}`",
        Expect::InvalidExpression => "invalid expression",
        Expect::UndefinedField => "attempt to use undefined struct field",
        Expect::InvalidComponentPath => "invalid component path",
    }
}

fn push_ctx(out: &mut String, c: &Ctx)
    ensures
        final(out)@ == old(out)@ + ctx_text(c.deep_view()),
{
    match c {
        Ctx::Label(l) => {
            append_str(out, "in ");
            append_str(out, label_str(*l));
        },
        Ctx::Expected(x) => {
            append_str(out, expect_str(*x));
        },
        Ctx::Description(d) => {
            append_str(out, d.as_str());
        },
    }
}

/// The text of a failure's trail.
pub fn error_message(trail: &Vec<Ctx>) -> (r: String)
    ensures
        r@ == trail_text(trail.deep_view()),
{
    let mut out = String::new();
    let n = trail.len();
    if n == 0 {
        return out;
    }
    let ghost t = trail.deep_view();
    let mut k = n;
    assert(t.subrange(0, n as int) =~= t);
    assert(out@ + trail_text(t) =~= trail_text(t));
    while k > 0
        invariant
            0 <= k <= n,
            n == trail@.len(),
            t == trail.deep_view(),
            trail_text(t) == out@ + trail_text(t.subrange(0, k as int)),
        decreases k,
    {
        let ghost o = out@;
        let ghost pre = t.subrange(0, k as int);
        push_ctx(&mut out, &trail[k - 1]);
        proof {
            assert(pre.last() == t[k - 1]);
            assert(pre.drop_last() =~= t.subrange(0, k - 1));
        }
        if k > 1 {
            append_str(&mut out, ": ");
            proof {
                assert(trail_text(pre) == ctx_text(pre.last()) + ": "@ + trail_text(pre.drop_last()));
                assert(o + (ctx_text(pre.last()) + ": "@ + trail_text(pre.drop_last())) =~= out@
                    + trail_text(t.subrange(0, k - 1)));
            }
        } else {
            proof {
                assert(trail_text(pre) == ctx_text(pre[0]));
                assert(t.subrange(0, 0) =~= Seq::<CtxV>::empty());
                assert(o + ctx_text(pre[0]) =~= out@ + trail_text(t.subrange(0, 0)));
            }
        }
        k = k - 1;
    }
    assert(out@ + trail_text(t.subrange(0, 0)) =~= out@) by {
        assert(t.subrange(0, 0) =~= Seq::<CtxV>::empty());
    }
    out
}

/// Line and column (both from 1) of position `k` of `s`; a position past the
/// end counts as the end.
pub open spec fn line_col_of(s: Seq<char>, k: int) -> (int, int)
    decreases k,
{
    if k <= 0 || s.len() == 0 {
        (1, 1)
    } else if k > s.len() {
        line_col_of(s, s.len() as int)
    } else {
        let (l, c) = line_col_of(s, k - 1);
        if s[k - 1] == '\n' {
            (l + 1, 1)
        } else {
            (l, c + 1)
        }
    }
}

proof fn lemma_line_col_bound(s: Seq<char>, k: int)
    requires
        0 <= k <= s.len(),
    ensures
        1 <= line_col_of(s, k).0 <= k + 1,
        1 <= line_col_of(s, k).1 <= k + 1,
    decreases k,
{
    if k > 0 {
        lemma_line_col_bound(s, k - 1);
    }
}

/// The line and column (from 1) of position `offset` (in characters) of
/// `source`.
pub fn line_col(source: &str, offset: usize) -> (r: (usize, usize))
    requires
        source@.len() < usize::MAX,
    ensures
        r.0 as int == line_col_of(source@, offset as int).0,
        r.1 as int == line_col_of(source@, offset as int).1,
{
    let s = chars_of(source);
    let stop = if offset < s.len() {
        offset
    } else {
        s.len()
    };
    let mut line: usize = 1;
    let mut col: usize = 1;
    let mut i: usize = 0;
    while i < stop
        invariant
            s@ == source@,
            stop <= s@.len() < usize::MAX,
            i <= stop,
            (line as int, col as int) == line_col_of(s@, i as int),
            line <= i + 1,
            col <= i + 1,
        decreases stop - i,
    {
        if s[i] == '\n' {
            line = line + 1;
            col = 1;
        } else {
            col = col + 1;
        }
        i = i + 1;
    }
    proof {
        if offset as int > s@.len() {
            assert(line_col_of(s@, offset as int) == line_col_of(s@, s@.len() as int));
        }
    }
    (line, col)
}

/// Start of the line that holds position `k`.
pub open spec fn line_begin(s: Seq<char>, k: int) -> int
    decreases k,
{
    if k <= 0 || k > s.len() {
        0
    } else if s[k - 1] == '\n' {
        k
    } else {
        line_begin(s, k - 1)
    }
}

proof fn lemma_line_begin(s: Seq<char>, k: int)
    requires
        0 <= k <= s.len(),
    ensures
        0 <= line_begin(s, k) <= k,
    decreases k,
{
    if k > 0 && s[k - 1] != '\n' {
        lemma_line_begin(s, k - 1);
    }
}

/// The number of line breaks in `t`.
pub open spec fn newlines(t: Seq<char>) -> nat
    decreases t.len(),
{
    if t.len() == 0 {
        0
    } else {
        newlines(t.drop_last()) + if t.last() == '\n' {
            1nat
        } else {
            0nat
        }
    }
}

/// The line of a position is one more than the line breaks before it, and
/// its column is one more than its distance from the start of its line,
/// which follows the last line break before it (or is the start of the
/// text).
pub proof fn lines_and_columns(s: Seq<char>, k: int)
    requires
        0 <= k <= s.len(),
    ensures
        line_col_of(s, k).0 == 1 + newlines(s.subrange(0, k)),
        line_col_of(s, k).1 == k - line_begin(s, k) + 1,
        line_begin(s, k) == 0 || s[line_begin(s, k) - 1] == '\n',
        forall|i: int| line_begin(s, k) <= i < k ==> s[i] != '\n',
    decreases k,
{
    if k > 0 {
        lines_and_columns(s, k - 1);
        let t = s.subrange(0, k);
        assert(t.drop_last() =~= s.subrange(0, k - 1));
        assert(t.last() == s[k - 1]);
    } else {
        assert(s.subrange(0, 0) =~= Seq::<char>::empty());
    }
}

/// The report of an error at position `k` of `s` with message `msg`: the
/// message, the line and column, the text of that line, and a caret under
/// the column.
pub open spec fn error_report(s: Seq<char>, k: int, msg: Seq<char>) -> Seq<char> {
    let (line, col) = line_col_of(s, k);
    msg + "\n --> line "@ + decimal(line as nat) + ", col "@ + decimal(col as nat) + "\n"@
        + s.subrange(line_begin(s, k), run_end(s, k, Class::LineRest)) + "\n"@ + Seq::new(
        (col - 1) as nat,
        |i: int| ' ',
    ) + seq!['^']
}

/// The report of an error at position `offset` (in characters) of `source`.
pub fn show_error(source: &str, offset: usize, msg: &str) -> (r: String)
    requires
        offset <= source@.len(),
        source@.len() < usize::MAX,
    ensures
        r@ == error_report(source@, offset as int, msg@),
{
    let s = chars_of(source);
    let (line, col) = line_col(source, offset);
    proof {
        lemma_line_col_bound(s@, offset as int);
        lemma_line_begin(s@, offset as int);
    }
    let mut b = offset;
    while b > 0 && s[b - 1] != '\n'
        invariant
            s@ == source@,
            b <= offset <= s@.len(),
            line_begin(s@, b as int) == line_begin(s@, offset as int),
        decreases b,
    {
        b = b - 1;
    }
    assert(b == line_begin(s@, offset as int));
    let e = run(s.as_slice(), offset, Class::LineRest);
    let mut out = String::new();
    append_str(&mut out, msg);
    append_str(&mut out, "\n --> line ");
    push_decimal(&mut out, line);
    append_str(&mut out, ", col ");
    push_decimal(&mut out, col);
    append_str(&mut out, "\n");
    let text = string_between(s.as_slice(), b, e);
    append_str(&mut out, text.as_str());
    append_str(&mut out, "\n");
    let ghost before = out@;
    let mut k: usize = 1;
    while k < col
        invariant
            1 <= k <= col,
            out@ == before + Seq::new((k - 1) as nat, |i: int| ' '),
        decreases col - k,
    {
        push_char(&mut out, ' ');
        k = k + 1;
        assert(out@ =~= before + Seq::new((k - 1) as nat, |i: int| ' '));
    }
    push_char(&mut out, '^');
    assert(out@ =~= error_report(source@, offset as int, msg@));
    out
}

} // verus!
