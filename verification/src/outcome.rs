//! Outcomes of the template grammar: success with an end position and a
//! value, a recoverable failure (another alternative may be tried), or a
//! committed failure at a position with the trail of what was expected.
use vstd::prelude::*;

verus! {

/// The rule a committed failure passed through on its way out.
#[derive(Clone, Copy, PartialEq, Eq, Structural, Debug)]
pub enum Label {
    TemplateParameters,
    HtmlText,
    Component,
    UseDirective,
    CodeBlock,
    Statement,
    ChildContent,
    Continue,
    Break,
    ParenthesizedExpression,
    Expression,
}

/// What a rule expected where it failed.
#[derive(Clone, Copy, PartialEq, Eq, Structural, Debug)]
pub enum Expect {
    /// the literal `end of file`
    EndOfFile,
    /// the literal `valid RsHtml expression`
    ValidExpression,
    /// the literal `)`
    CloseParen,
    /// the literal `identifier`
    Identifier,
    /// the literal `type`
    Type,
    /// the literal `path`
    Path,
    /// the literal `component tag identfier`
    ComponentTagIdentifier,
    /// the literal `{`
    OpenBrace,
    /// the literal `}`
    CloseBrace,
    /// the literal `>`
    Gt,
    /// the literal `</`
    CloseTagStart,
    /// the literal `tag identifier`
    TagIdentifier,
    /// the character `}`
    CloseBraceChar,
    /// the description `invalid expression`
    InvalidExpression,
    /// the description `attempt to use undefined struct field`
    UndefinedField,
    /// the description `invalid component path`
    InvalidComponentPath,
}

/// One entry of a failure's trail.
#[derive(Debug)]
pub enum Ctx {
    Label(Label),
    Expected(Expect),
    /// A message from `syn`, the lexer, or the component lookup.
    Description(String),
}

pub enum CtxV {
    Label(Label),
    Expected(Expect),
    Description(Seq<char>),
}

impl DeepView for Ctx {
    type V = CtxV;

    open spec fn deep_view(&self) -> CtxV {
        match self {
            Ctx::Label(l) => CtxV::Label(*l),
            Ctx::Expected(e) => CtxV::Expected(*e),
            Ctx::Description(d) => CtxV::Description(d@),
        }
    }
}

/// A failure of a rule.
#[derive(Debug)]
pub enum PErr {
    /// Nothing matched here; the caller may try something else.
    Back,
    /// The input is wrong at this position; nothing else is tried.
    Cut(usize, Vec<Ctx>),
}

/// The mathematical outcome of a rule.
pub enum Out<T> {
    Done(int, T),
    Back,
    Cut(int, Seq<CtxV>),
}

pub open spec fn err_out<T>(e: PErr) -> Out<T> {
    match e {
        PErr::Back => Out::Back,
        PErr::Cut(p, t) => Out::Cut(p as int, t.deep_view()),
    }
}

/// The outcome of a rule that returns only its end position.
pub open spec fn unit_out(r: Result<usize, PErr>) -> Out<()> {
    match r {
        Ok(e) => Out::Done(e as int, ()),
        Err(e) => err_out(e),
    }
}

/// A committed failure at `p` that expected `x`.
pub open spec fn cut_expect<T>(p: int, x: Expect) -> Out<T> {
    Out::Cut(p, seq![CtxV::Expected(x)])
}

/// The outcome with `l` added to the trail of a committed failure.
pub open spec fn labeled<T>(o: Out<T>, l: Label) -> Out<T> {
    match o {
        Out::Cut(p, t) => Out::Cut(p, t.push(CtxV::Label(l))),
        _ => o,
    }
}

pub fn cut_at(p: usize, x: Expect) -> (r: PErr)
    ensures
        err_out::<()>(r) == cut_expect::<()>(p as int, x),
{
    let mut t: Vec<Ctx> = Vec::new();
    t.push(Ctx::Expected(x));
    proof {
        assert(t.deep_view() =~= seq![CtxV::Expected(x)]);
    }
    PErr::Cut(p, t)
}

pub fn cut_description(p: usize, d: String) -> (r: PErr)
    ensures
        r matches PErr::Cut(q, t) && q == p && t.deep_view() == seq![CtxV::Description(d@)],
{
    let mut t: Vec<Ctx> = Vec::new();
    t.push(Ctx::Description(d));
    proof {
        assert(t.deep_view() =~= seq![CtxV::Description(d@)]);
    }
    PErr::Cut(p, t)
}

/// Adds `l` to the trail of a committed failure.
pub fn with_label(e: PErr, l: Label) -> (r: PErr)
    ensures
        match e {
            PErr::Back => r is Back,
            PErr::Cut(p, t) => r matches PErr::Cut(q, u) && q == p && u.deep_view()
                == t.deep_view().push(CtxV::Label(l)),
        },
{
    match e {
        PErr::Back => PErr::Back,
        PErr::Cut(p, t) => {
            let mut t = t;
            let ghost old_t = t;
            t.push(Ctx::Label(l));
            proof {
                assert(t.deep_view() =~= old_t.deep_view().push(CtxV::Label(l)));
            }
            PErr::Cut(p, t)
        },
    }
}

} // verus!
