//! The code a template compiles to, as a flat sequence of pieces. Groups
//! (braces, closures) are opened and closed by pieces of their own, so the
//! sequence reads like the token stream it stands for.
use vstd::prelude::*;

verus! {

/// The value bound to a component attribute.
#[derive(Debug, Clone)]
pub enum Value {
    /// `true` or `false`
    Bool(bool),
    /// a floating point literal, as written
    Float(String),
    /// a quoted string, as written (quotes included)
    Str(String),
    /// the rendering of a Rust expression (written through the escaping
    /// writer when the flag is set), made where the value is bound
    Expr(String, bool),
}

pub enum ValueV {
    Bool(bool),
    Float(Seq<char>),
    Str(Seq<char>),
    Expr(Seq<char>, bool),
}

impl DeepView for Value {
    type V = ValueV;

    open spec fn deep_view(&self) -> ValueV {
        match self {
            Value::Bool(b) => ValueV::Bool(*b),
            Value::Float(f) => ValueV::Float(f@),
            Value::Str(s) => ValueV::Str(s@),
            Value::Expr(e, b) => ValueV::Expr(e@, *b),
        }
    }
}

/// One piece of generated code.
#[derive(Debug, Clone)]
pub enum Frag {
    /// Writes literal text: `write!(out, "{}", text)?;`
    Write(String),
    /// Renders an expression (`escape_or_raw`): through the escaping writer
    /// when `escaped`, directly otherwise, with `message` for diagnostics.
    Render { expr: String, escaped: bool, message: String },
    /// Rust tokens given as source text (a statement head, `else`).
    Code(String),
    /// The statements of a Rust block given as source text with its braces.
    Stmts(String),
    /// `{`
    Open,
    /// `}`
    Close,
    /// `child_content(__f__)?;`
    ChildContent,
    /// `continue`
    Continue,
    /// `break`
    Break,
    /// `let name = value;`
    Let { name: String, value: Value },
    /// `let name = ::rshtml::Expr(|__f__: &mut dyn ::std::fmt::Write| -> ::std::fmt::Result {`
    LetClosureOpen(String),
    /// `Ok(()) });`
    LetClosureClose,
    /// `let child_content = |__f__: &mut dyn ::std::fmt::Write| -> ::std::fmt::Result {`
    ChildOpen,
    /// `Ok(()) };`
    ChildClose,
    /// `self.fn_name(__f__, child_content, args...)?;`
    Call { fn_name: String, args: Vec<String> },
}

pub enum FragV {
    Write(Seq<char>),
    Render { expr: Seq<char>, escaped: bool, message: Seq<char> },
    Code(Seq<char>),
    Stmts(Seq<char>),
    Open,
    Close,
    ChildContent,
    Continue,
    Break,
    Let { name: Seq<char>, value: ValueV },
    LetClosureOpen(Seq<char>),
    LetClosureClose,
    ChildOpen,
    ChildClose,
    Call { fn_name: Seq<char>, args: Seq<Seq<char>> },
}

impl DeepView for Frag {
    type V = FragV;

    open spec fn deep_view(&self) -> FragV {
        match self {
            Frag::Write(t) => FragV::Write(t@),
            Frag::Render { expr, escaped, message } => FragV::Render {
                expr: expr@,
                escaped: *escaped,
                message: message@,
            },
            Frag::Code(c) => FragV::Code(c@),
            Frag::Stmts(c) => FragV::Stmts(c@),
            Frag::Open => FragV::Open,
            Frag::Close => FragV::Close,
            Frag::ChildContent => FragV::ChildContent,
            Frag::Continue => FragV::Continue,
            Frag::Break => FragV::Break,
            Frag::Let { name, value } => FragV::Let { name: name@, value: value.deep_view() },
            Frag::LetClosureOpen(n) => FragV::LetClosureOpen(n@),
            Frag::LetClosureClose => FragV::LetClosureClose,
            Frag::ChildOpen => FragV::ChildOpen,
            Frag::ChildClose => FragV::ChildClose,
            Frag::Call { fn_name, args } => FragV::Call {
                fn_name: fn_name@,
                args: args.deep_view(),
            },
        }
    }
}

/// The rendering of an expression (`escape_or_raw`).
pub open spec fn render(expr: Seq<char>, escaped: bool, message: Seq<char>) -> FragV {
    FragV::Render { expr, escaped, message }
}

/// The code that renders `expr_ts`: through `::rshtml::EscapingWriter` when
/// `is_escaped`, straight to the formatter otherwise.
pub fn escape_or_raw(expr_ts: String, is_escaped: bool, message: &str) -> (r: Frag)
    ensures
        r.deep_view() == render(expr_ts@, is_escaped, message@),
{
    Frag::Render { expr: expr_ts, escaped: is_escaped, message: message.to_owned() }
}

} // verus!
