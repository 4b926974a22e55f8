//! Compiling one template of the inline macro: its code, or the report of
//! why it does not compile, together with the name and arguments of the
//! function it becomes.
use vstd::prelude::*;
use crate::code::{Frag, FragV};
use crate::context::{Context, St};
use crate::diagnostics::{error_message, error_report, show_error, trail_text};
use crate::markup::Flavor;
use crate::names::{fn_name_of, generate_fn_name};
use crate::order::{sort_names, sort_names_in_place};
use crate::outcome::{Ctx, Out, PErr};
use crate::syntax::{debug_quote, debug_str};
use crate::template::template;
use crate::text::chars_of;

verus! {

/// The names of parameters given as (name, type).
pub open spec fn param_names(ps: Seq<(Seq<char>, Seq<char>)>) -> Seq<Seq<char>> {
    ps.map_values(|p: (Seq<char>, Seq<char>)| p.0)
}

/// The body a template compiles to: its code, or the report of the failure
/// (the trail's text, quoted as `{:?}` does, shown at the failure's
/// position).
pub open spec fn compiled_body(s: Seq<char>, o: Out<Seq<FragV>>) -> Result<
    Seq<FragV>,
    Seq<char>,
> {
    match o {
        Out::Done(_, c) => Ok(c),
        Out::Cut(p, t) => Err(error_report(s, p, debug_str(trail_text(t)))),
        Out::Back => Err(Seq::empty()),
    }
}

/// A compiled template: the function it becomes, that function's arguments
/// (the template's parameter names, in order), and its body or the report
/// of why it failed.
pub struct CompiledTemplate {
    pub fn_name: String,
    pub args: Vec<String>,
    pub body: Result<Vec<Frag>, String>,
}

pub open spec fn body_view(b: Result<Vec<Frag>, String>) -> Result<Seq<FragV>, Seq<char>> {
    match b {
        Ok(v) => Ok(v.deep_view()),
        Err(m) => Err(m@),
    }
}

/// The report of a template that failed at `offset` (in characters) with
/// the trail `trail`: the trail's text quoted as `{:?}` does, then where it
/// failed, the line, and a caret under the column.
pub fn failure_report(source: &str, offset: usize, trail: &Vec<Ctx>) -> (r: String)
    requires
        offset <= source@.len(),
        source@.len() < usize::MAX,
    ensures
        r@ == error_report(source@, offset as int, debug_str(trail_text(trail.deep_view()))),
{
    let msg = error_message(trail);
    let quoted = debug_quote(msg.as_str());
    show_error(source, offset, quoted.as_str())
}

/// The parameter names, in the order given.
fn names_of(params: &Vec<(String, String)>) -> (r: Vec<String>)
    ensures
        r.deep_view() == param_names(params.deep_view()),
{
    let mut r: Vec<String> = Vec::new();
    let mut i: usize = 0;
    while i < params.len()
        invariant
            i <= params@.len(),
            r.deep_view() == param_names(params.deep_view().subrange(0, i as int)),
        decreases params@.len() - i,
    {
        let ghost before = r.deep_view();
        r.push(params[i].0.clone());
        proof {
            assert(params.deep_view()[i as int].0 == params[i as int].0@);
            assert(params.deep_view().subrange(0, i + 1) =~= params.deep_view().subrange(
                0,
                i as int,
            ).push(params.deep_view()[i as int]));
            assert(r.deep_view() =~= before.push(params[i as int].0@));
            assert(param_names(params.deep_view().subrange(0, i + 1)) =~= param_names(
                params.deep_view().subrange(0, i as int),
            ).push(params.deep_view()[i as int].0));
        }
        i = i + 1;
    }
    assert(params.deep_view().subrange(0, params@.len() as int) =~= params.deep_view());
    r
}

/// Compiles the template `source`, read from `path`, with the inline
/// macro's grammar, starting from `ctx`: the template's code or the report
/// of its failure, the function name the path gives, and the parameter
/// names in order; the context afterwards records that function name.
pub fn compile(path: &str, source: &str, ctx: Context) -> (r: (CompiledTemplate, Context))
    requires
        ctx@.text_size + source@.len() <= usize::MAX,
        source@.len() < usize::MAX,
    ensures
        body_view(r.0.body) == compiled_body(
            source@,
            crate::markup::template(source@, ctx@, Flavor::Macro).0,
        ),
        r.0.fn_name@ == fn_name_of(path@),
        r.1@ == (St {
            fn_name: fn_name_of(path@),
            ..crate::markup::template(source@, ctx@, Flavor::Macro).1
        }),
        r.0.args.deep_view() == sort_names(
            param_names(crate::markup::template(source@, ctx@, Flavor::Macro).1.params),
        ),
{
    let s = chars_of(source);
    let mut ctx = ctx;
    let r = template(s.as_slice(), &mut ctx, Flavor::Macro);
    let body = match r {
        Ok((_, c)) => Ok(c),
        Err(PErr::Cut(p, t)) => Err(failure_report(source, p, &t)),
        Err(PErr::Back) => Err(String::new()),
    };
    let fn_name = generate_fn_name(path);
    ctx.set_fn_name(fn_name.clone());
    let mut args = names_of(ctx.template_params());
    sort_names_in_place(&mut args);
    (CompiledTemplate { fn_name, args, body }, ctx)
}

} // verus!
