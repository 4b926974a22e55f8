//! Statements of the older inline grammar: one or more `if`, `else if`,
//! `else` and `for` heads, each with a braced body. The heads are checked
//! together: each one is read by `syn` with the heads before it, every head
//! followed by `{}`.
use vstd::prelude::*;
use crate::classes::{Class, at, lemma_run_end, starts_at};
use crate::code::{Frag, FragV};
use crate::context::{Context, St};
use crate::directives::{Parsed, bounded, frags_out, room};
use crate::grammar::{cut_desc, empty_block, fail_as, kw_else, kw_for, kw_if};
use crate::lexer::{scan_stmt_head, skip_ws, stmt_head, ws};
use crate::markup::{Flavor, inner_tc};
use crate::outcome::{Out, PErr, cut_description, err_out};
use crate::syntax::{expr_error, syn_expr_error};
use crate::template::inner_template_content;
use crate::text::{append_str, string_between};

verus! {

/// The end of a statement head at `k`: `if`, `else if` or `for`, whitespace
/// and the head's text (up to `{`, `@` or `}`); or else a bare `else`.
pub open spec fn inline_head(s: Seq<char>, k: int) -> Option<int> {
    let w = ws(s, k + 4);
    if at(s, k, kw_if()) && stmt_head(s, k + 2) is Some {
        stmt_head(s, k + 2)
    } else if at(s, k, kw_else()) && w > k + 4 && at(s, w, kw_if()) && stmt_head(s, w + 2) is Some {
        stmt_head(s, w + 2)
    } else if at(s, k, kw_for()) && stmt_head(s, k + 3) is Some {
        stmt_head(s, k + 3)
    } else if at(s, k, kw_else()) {
        Some(k + 4)
    } else {
        None
    }
}

/// One parsed statement: where it started, its head, and its body's code.
pub type Item = (int, Seq<char>, Seq<FragV>);

/// Statements from `p`, each after whitespace: a head, whitespace and a
/// braced body; at least one.
pub open spec fn inline_items(s: Seq<char>, p: int, st: St) -> (Out<Seq<Item>>, St)
    decreases s.len() - p,
{
    if p < 0 || p > s.len() {
        (Out::Back, st)
    } else {
        let w = ws(s, p);
        match inline_head(s, w) {
            None => (Out::Back, st),
            Some(h) => {
                let (o, st1) = inner_tc(s, ws(s, h), st, Flavor::Macro);
                match o {
                    Out::Done(e, body) => if p < e <= s.len() {
                        let item = (p, s.subrange(w, h), body);
                        let (o2, st2) = inline_items(s, e, st1);
                        match o2 {
                            Out::Done(e2, more) => (Out::Done(e2, seq![item] + more), st2),
                            Out::Back => (Out::Done(e, seq![item]), st1),
                            Out::Cut(q, t) => (Out::Cut(q, t), st2),
                        }
                    } else {
                        (Out::Back, st)
                    },
                    Out::Back => (Out::Back, st),
                    Out::Cut(q, t) => (Out::Cut(q, t), st1),
                }
            },
        }
    }
}

/// The code of statements whose heads, after the text `acc`, `syn` reads:
/// each head with `{}` is added to `acc` and the whole read as an
/// expression; the first that fails gives its start and `syn`'s message.
pub open spec fn checked_items(items: Seq<Item>, acc: Seq<char>) -> Result<
    Seq<FragV>,
    (int, Seq<char>),
>
    decreases items.len(),
{
    if items.len() == 0 {
        Ok(Seq::empty())
    } else {
        let (cp, head, body) = items[0];
        let acc2 = acc + head + empty_block();
        match syn_expr_error(acc2) {
            Some(msg) => Err((cp, msg)),
            None => match checked_items(items.drop_first(), acc2) {
                Ok(rest) => Ok(seq![FragV::Code(head)] + body + rest),
                Err(x) => Err(x),
            },
        }
    }
}

/// A statement of the older inline grammar at `p`: its heads and bodies in
/// order, or a committed failure at the first head `syn` does not read.
pub open spec fn inline_stmt(s: Seq<char>, p: int, st: St) -> (Out<Seq<FragV>>, St) {
    let (o, st1) = inline_items(s, p, st);
    match o {
        Out::Done(e, items) => match checked_items(items, Seq::empty()) {
            Ok(code) => (Out::Done(e, code), st1),
            Err((cp, msg)) => (cut_desc(cp, msg), st1),
        },
        o => (fail_as(o), st1),
    }
}

/// The end of the statement head at `k`, if there is one.
pub fn rust_stmt_head(s: &[char], k: usize) -> (r: Option<usize>)
    requires
        k <= s@.len(),
    ensures
        match r {
            Some(h) => inline_head(s@, k as int) == Some(h as int) && k < h <= s@.len(),
            None => inline_head(s@, k as int) is None,
        },
{
    let _len = s.len();
    proof {
        reveal_strlit("if");
        reveal_strlit("else");
        reveal_strlit("for");
        assert("if"@ =~= kw_if());
        assert("else"@ =~= kw_else());
        assert("for"@ =~= kw_for());
        if k + 4 <= s@.len() {
            lemma_run_end(s@, k + 4, Class::Space);
        }
    }
    if starts_at(s, k, "if") {
        if let Some(h) = scan_stmt_head(s, k + 2) {
            return Some(h);
        }
    }
    if starts_at(s, k, "else") {
        let w = skip_ws(s, k + 4);
        if w > k + 4 && starts_at(s, w, "if") {
            if let Some(h) = scan_stmt_head(s, w + 2) {
                return Some(h);
            }
        }
    }
    if starts_at(s, k, "for") {
        if let Some(h) = scan_stmt_head(s, k + 3) {
            return Some(h);
        }
    }
    if starts_at(s, k, "else") {
        return Some(k + 4);
    }
    None
}

/// The statements from `p` (`inline_items`), as the compiler holds them.
fn items_at(s: &[char], p: usize, ctx: &mut Context) -> (r: Result<
    (usize, Vec<(usize, String, Vec<Frag>)>),
    PErr,
>)
    requires
        p <= s@.len(),
        room(old(ctx)@, p as int, s@.len() as int),
    ensures
        (match r {
            Ok((e, v)) => Out::Done(e as int, items_view(v@)),
            Err(x) => err_out(x),
        }, final(ctx)@) == inline_items(s@, p as int, old(ctx)@),
        bounded(r, p as int, s@.len() as int, old(ctx)@, final(ctx)@),
        r matches Ok((e, _)) ==> p < e,
        r matches Ok((e, v)) ==> forall|j: int| 0 <= j < v@.len() ==> #[trigger] v@[j].0 <= e,
    decreases s@.len() - p,
{
    let _len = s.len();
    let w = skip_ws(s, p);
    proof {
        lemma_run_end(s@, p as int, Class::Space);
    }
    let h = match rust_stmt_head(s, w) {
        None => {
            return Err(PErr::Back);
        },
        Some(h) => h,
    };
    let b = skip_ws(s, h);
    proof {
        lemma_run_end(s@, h as int, Class::Space);
    }
    match inner_template_content(s, b, ctx, Flavor::Macro) {
        Ok((e, body)) => {
            let head = string_between(s, w, h);
            let ghost item: Item = (p as int, head@, body.deep_view());
            let ghost st1 = ctx@;
            match items_at(s, e, ctx) {
                Ok((e2, more)) => {
                    let mut v = vec![(p, head, body)];
                    let ghost mv = items_view(more@);
                    let mut m = more;
                    let ghost m0 = m@;
                    v.append(&mut m);
                    assert(items_view(v@) =~= seq![item] + mv);
                    assert(forall|j: int| 0 <= j < v@.len() ==> #[trigger] v@[j].0 <= e2) by {
                        assert forall|j: int| 0 <= j < v@.len() implies #[trigger] v@[j].0 <= e2 by {
                            if j > 0 {
                                assert(v@[j] == m0[j - 1]);
                            }
                        }
                    }
                    Ok((e2, v))
                },
                Err(PErr::Back) => {
                    let v = vec![(p, head, body)];
                    assert(items_view(v@) =~= seq![item]);
                    Ok((e, v))
                },
                Err(c) => Err(c),
            }
        },
        Err(x) => Err(x),
    }
}

/// Items as values.
pub open spec fn items_view(v: Seq<(usize, String, Vec<Frag>)>) -> Seq<Item> {
    Seq::new(v.len(), |i: int| (v[i].0 as int, v[i].1@, v[i].2.deep_view()))
}

/// The code of statements (`checked_items` from no text), or the start of
/// the first whose head `syn` does not read with `syn`'s message.
#[verifier::loop_isolation(false)]
fn check_items(items: Vec<(usize, String, Vec<Frag>)>) -> (r: Result<Vec<Frag>, (usize, String)>)
    ensures
        match r {
            Ok(v) => checked_items(items_view(items@), Seq::empty()) == Ok::<
                Seq<FragV>,
                (int, Seq<char>),
            >(v.deep_view()),
            Err((cp, msg)) => checked_items(items_view(items@), Seq::empty()) == Err::<
                Seq<FragV>,
                (int, Seq<char>),
            >((cp as int, msg@)),
        },
        r matches Err((cp, _)) ==> exists|j: int| 0 <= j < items@.len() && items@[j].0 == cp,
{
    let ghost all = items_view(items@);
    let ghost orig = items@;
    proof {
        reveal_strlit(" {}");
        assert(" {}"@ =~= empty_block());
    }
    let mut acc = String::new();
    let mut out: Vec<Frag> = Vec::new();
    let mut rest = items;
    let ghost mut n: int = 0;
    assert(all.subrange(0, all.len() as int) =~= all);
    assert(checked_items(all, Seq::empty()) == match checked_items(all.subrange(0, all.len() as int), acc@) {
        Ok(c) => Ok(out.deep_view() + c),
        Err(x) => Err::<Seq<FragV>, (int, Seq<char>)>(x),
    }) by {
        match checked_items(all, Seq::empty()) {
            Ok(c) => {
                assert(Seq::<FragV>::empty() + c =~= c);
            },
            Err(_) => {},
        }
    }
    while rest.len() > 0
        invariant
            0 <= n <= all.len(),
            all.len() == orig.len(),
            all == items_view(orig),
            items_view(rest@) == all.subrange(n, all.len() as int),
            rest@ == orig.subrange(n, orig.len() as int),
            " {}"@ == empty_block(),
            checked_items(all, Seq::empty()) == match checked_items(
                all.subrange(n, all.len() as int),
                acc@,
            ) {
                Ok(c) => Ok(out.deep_view() + c),
                Err(x) => Err::<Seq<FragV>, (int, Seq<char>)>(x),
            },
        decreases rest.len(),
    {
        let ghost before = rest@;
        let ghost o = out.deep_view();
        let (cp, head, body) = rest.remove(0);
        proof {
            assert(before[0] == orig[n]);
            assert(items_view(before)[0] == (cp as int, head@, body.deep_view()));
            assert(items_view(rest@) =~= items_view(before).drop_first());
            assert(rest@ =~= orig.subrange(n + 1, orig.len() as int));
            assert(all.subrange(n, all.len() as int).drop_first() =~= all.subrange(
                n + 1,
                all.len() as int,
            ));
        }
        append_str(&mut acc, head.as_str());
        append_str(&mut acc, " {}");
        if let Some(msg) = expr_error(acc.as_str()) {
            proof {
                let sub = all.subrange(n, all.len() as int);
                assert(sub[0] == (cp as int, head@, body.deep_view()));
                assert(orig[n].0 == cp);
            }
            return Err((cp, msg));
        }
        let ghost hv = head@;
        let ghost bv = body.deep_view();
        out.push(Frag::Code(head));
        let mut b = body;
        out.append(&mut b);
        proof {
            assert(out.deep_view() =~= o + (seq![FragV::Code(hv)] + bv));
            match checked_items(all.subrange(n + 1, all.len() as int), acc@) {
                Ok(c) => {
                    assert(o + ((seq![FragV::Code(hv)] + bv) + c) =~= (o + (seq![
                        FragV::Code(hv),
                    ] + bv)) + c);
                    assert(seq![FragV::Code(hv)] + bv + c =~= (seq![FragV::Code(hv)] + bv) + c);
                },
                Err(_) => {},
            }
            n = n + 1;
        }
    }
    assert(out.deep_view() + Seq::<FragV>::empty() =~= out.deep_view());
    Ok(out)
}

/// A statement of the older inline grammar at `p`.
pub fn rust_stmt(s: &[char], p: usize, ctx: &mut Context) -> (r: Parsed)
    requires
        p <= s@.len(),
        room(old(ctx)@, p as int, s@.len() as int),
    ensures
        (frags_out(r), final(ctx)@) == inline_stmt(s@, p as int, old(ctx)@),
        bounded(r, p as int, s@.len() as int, old(ctx)@, final(ctx)@),
{
    match items_at(s, p, ctx) {
        Ok((e, items)) => {
            let ghost iv = items@;
            match check_items(items) {
                Ok(code) => Ok((e, code)),
                Err((cp, msg)) => {
                    proof {
                        let j = choose|j: int| 0 <= j < iv.len() && iv[j].0 == cp;
                        assert(iv[j].0 <= e);
                    }
                    Err(cut_description(cp, msg))
                },
            }
        },
        Err(x) => Err(x),
    }
}

} // verus!
