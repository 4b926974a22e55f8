//! The text size a template reports is the length of the literal text it
//! writes: every rule of the grammar counts exactly the text it emits.
use vstd::prelude::*;
use crate::code::FragV;
use crate::context::St;
use crate::grammar::{
    break_directive, child_content_directive, continue_directive, rendered, rust_block,
    simple_expr, simple_expr_paren, template_params, text, use_directive,
};
use crate::lexer::Dialect;
use crate::markup::{
    AttrVal, AttrsStep, Flavor, Step, at_directive, attr_frags, attr_value, attribute, attributes,
    block, component, component_code, content, dialect, else_ifs, else_tail,
    if_chain, inner_tc, keyword_stmt, macro_directive, must_inner, rust_stmt, template,
    then_pre,
};
use crate::outcome::Out;

verus! {

/// The number of characters of literal text that fragments write.
pub open spec fn written(fr: Seq<FragV>) -> nat
    decreases fr.len(),
{
    if fr.len() == 0 {
        0
    } else {
        (match fr[0] {
            FragV::Write(t) => t.len(),
            _ => 0,
        }) + written(fr.drop_first())
    }
}

/// A step from state `st` counts the text it writes.
pub open spec fn counts(st: St, r: Step) -> bool {
    match r.0 {
        Out::Done(_, fr) => r.1.text_size == st.text_size + written(fr),
        _ => true,
    }
}

/// The text an attribute value writes.
pub open spec fn value_written(v: AttrVal) -> nat {
    match v {
        AttrVal::Simple(_) => 0,
        AttrVal::Template(b) => written(b),
    }
}

proof fn lemma_written_concat(a: Seq<FragV>, b: Seq<FragV>)
    ensures
        written(a + b) == written(a) + written(b),
    decreases a.len(),
{
    if a.len() == 0 {
        assert(a + b =~= b);
    } else {
        assert((a + b).drop_first() =~= a.drop_first() + b);
        assert((a + b)[0] == a[0]);
        lemma_written_concat(a.drop_first(), b);
    }
}

proof fn lemma_written_one(x: FragV)
    ensures
        written(seq![x]) == (match x {
            FragV::Write(t) => t.len(),
            _ => 0,
        }),
{
    let one = seq![x];
    assert(one[0] == x);
    assert(one.drop_first() =~= Seq::<FragV>::empty());
    assert(written(Seq::<FragV>::empty()) == 0);
}

proof fn lemma_then_pre(st: St, st1: St, f: Seq<FragV>, r: Step)
    requires
        st1.text_size == st.text_size + written(f),
        counts(st1, r),
    ensures
        counts(st, then_pre(f, r)),
{
    match r.0 {
        Out::Done(_, g) => {
            lemma_written_concat(f, g);
        },
        _ => {},
    }
}

/// The rules that write nothing and leave the count alone.
proof fn lemma_silent(s: Seq<char>, w: int, st: St, d: Dialect, after_at: bool)
    ensures
        counts(st, use_directive(s, w, st, d)),
        counts(st, (rust_block(s, w, after_at), st)),
        counts(st, (child_content_directive(s, w, d), st)),
        counts(st, (continue_directive(s, w), st)),
        counts(st, (break_directive(s, w), st)),
        counts(st, (rendered(simple_expr_paren(s, w, st, d)), st)),
        counts(st, (rendered(simple_expr(s, w, st, d)), st)),
        counts(st, template_params(s, w, st, d)),
{
    lemma_written_one(FragV::ChildContent);
    lemma_written_one(FragV::Continue);
    lemma_written_one(FragV::Break);
    match rust_block(s, w, after_at) {
        Out::Done(_, fr) => {
            lemma_written_one(fr[0]);
        },
        _ => {},
    }
    match rendered(simple_expr_paren(s, w, st, d)) {
        Out::Done(_, fr) => {
            lemma_written_one(fr[0]);
        },
        _ => {},
    }
    match rendered(simple_expr(s, w, st, d)) {
        Out::Done(_, fr) => {
            lemma_written_one(fr[0]);
        },
        _ => {},
    }
    assert(written(Seq::<FragV>::empty()) == 0);
}

proof fn lemma_macro_directive(s: Seq<char>, w: int, st: St)
    ensures
        counts(st, macro_directive(s, w, st)),
{
    lemma_silent(s, w, st, Dialect::Macro, true);
}

proof fn lemma_content(s: Seq<char>, p: int, st: St, f: Flavor, inner: bool)
    ensures
        counts(st, content(s, p, st, f, inner)),
    decreases s.len() - p, 9int,
{
    if 0 <= p <= s.len() {
        let (o, st1) = text(s, p, st, inner);
        match o {
            Out::Done(e, fr) => {
                if p < e <= s.len() {
                    lemma_written_one(fr[0]);
                    assert(fr =~= seq![fr[0]]);
                    lemma_content(s, e, st1, f, inner);
                    lemma_then_pre(st, st1, fr, content(s, e, st1, f, inner));
                }
            },
            _ => {
                let (b, st2) = block(s, p, st, f);
                lemma_block(s, p, st, f);
                match b {
                    Out::Done(e, fr) => {
                        if p < e <= s.len() {
                            lemma_content(s, e, st2, f, inner);
                            lemma_then_pre(st, st2, fr, content(s, e, st2, f, inner));
                        }
                    },
                    _ => {
                        assert(written(Seq::<FragV>::empty()) == 0);
                    },
                }
            },
        }
    }
}

proof fn lemma_block(s: Seq<char>, p: int, st: St, f: Flavor)
    ensures
        counts(st, block(s, p, st, f)),
    decreases s.len() - p, 8int,
{
    if 0 <= p <= s.len() {
        if f == Flavor::Macro {
            lemma_macro_directive(s, crate::lexer::ws(s, p + 1), st);
        } else {
            lemma_component(s, p, st, f);
            let (o, st1) = component(s, p, st, f);
            if o is Back {
                if crate::classes::char_at(s, p, '@') {
                    let w = crate::lexer::ws(s, p + 1);
                    crate::classes::lemma_run_end(s, p + 1, crate::classes::Class::Space);
                    lemma_at_directive(s, w, st, f);
                }
            }
        }
    }
}

proof fn lemma_at_directive(s: Seq<char>, w: int, st: St, f: Flavor)
    ensures
        counts(st, at_directive(s, w, st, f)),
    decreases s.len() - w, 6int,
{
    if 0 <= w <= s.len() {
        lemma_silent(s, w, st, dialect(f), false);
        lemma_rust_stmt(s, w, st, f);
    }
}

proof fn lemma_rust_stmt(s: Seq<char>, w: int, st: St, f: Flavor)
    ensures
        counts(st, rust_stmt(s, w, st, f)),
    decreases s.len() - w, 5int,
{
    if 0 <= w <= s.len() {
        lemma_if_chain(s, w, st, f);
        lemma_keyword_stmt(s, w, st, f, crate::grammar::kw_for());
    }
}

proof fn lemma_if_chain(s: Seq<char>, w: int, st: St, f: Flavor)
    ensures
        counts(st, if_chain(s, w, st, f)),
    decreases s.len() - w, 4int,
{
    if 0 <= w <= s.len() {
        lemma_keyword_stmt(s, w, st, f, crate::grammar::kw_if());
        let (o, st1) = keyword_stmt(s, w, st, f, crate::grammar::kw_if());
        match o {
            Out::Done(e, head) => {
                if w < e <= s.len() {
                    lemma_else_ifs(s, e, st1, f);
                    let (o2, st2) = else_ifs(s, e, st1, f);
                    match o2 {
                        Out::Done(e2, mid) => {
                            if e <= e2 <= s.len() {
                                lemma_else_tail(s, e2, st2, f);
                                lemma_written_concat(head, mid);
                                match else_tail(s, e2, st2, f).0 {
                                    Out::Done(_, last) => {
                                        lemma_written_concat(head + mid, last);
                                    },
                                    _ => {},
                                }
                            }
                        },
                        _ => {},
                    }
                }
            },
            _ => {},
        }
    }
}

proof fn lemma_keyword_stmt(s: Seq<char>, w: int, st: St, f: Flavor, kw: Seq<char>)
    ensures
        counts(st, keyword_stmt(s, w, st, f, kw)),
    decreases s.len() - w, 3int,
{
    if 0 <= w <= s.len() {
        let a = crate::lexer::ws(s, w);
        crate::classes::lemma_run_end(s, w, crate::classes::Class::Space);
        if crate::classes::at(s, a, kw) {
            match crate::lexer::stmt_head(s, a + kw.len()) {
                Some(h) => {
                    crate::classes::lemma_run_end(s, a + kw.len(), crate::classes::Class::Space);
                    crate::classes::lemma_run_end(
                        s,
                        crate::lexer::ws(s, a + kw.len()),
                        crate::classes::Class::StmtHead,
                    );
                    lemma_must_inner(s, h, st, f);
                    match must_inner(s, h, st, f).0 {
                        Out::Done(_, body) => {
                            let head = kw + seq![' '] + s.subrange(a + kw.len(), h);
                            lemma_written_one(FragV::Code(head));
                            lemma_written_concat(seq![FragV::Code(head)], body);
                        },
                        _ => {},
                    }
                },
                None => {},
            }
        }
    }
}

proof fn lemma_else_ifs(s: Seq<char>, p: int, st: St, f: Flavor)
    ensures
        counts(st, else_ifs(s, p, st, f)),
    decreases s.len() - p, 3int,
{
    assert(written(Seq::<FragV>::empty()) == 0);
    if 0 <= p <= s.len() {
        let w = crate::lexer::ws(s, p);
        crate::classes::lemma_run_end(s, p, crate::classes::Class::Space);
        if crate::classes::at(s, w, crate::grammar::kw_else()) && crate::lexer::ws(s, w + 4) > w
            + 4 {
            let w2 = crate::lexer::ws(s, w + 4);
            crate::classes::lemma_run_end(s, w + 4, crate::classes::Class::Space);
            lemma_keyword_stmt(s, w2, st, f, crate::grammar::kw_if());
            let (o, st1) = keyword_stmt(s, w2, st, f, crate::grammar::kw_if());
            match o {
                Out::Done(e, fr) => {
                    if p < e <= s.len() {
                        let code = seq![FragV::Code(crate::grammar::kw_else())];
                        lemma_written_one(FragV::Code(crate::grammar::kw_else()));
                        lemma_written_concat(code, fr);
                        lemma_else_ifs(s, e, st1, f);
                        lemma_then_pre(st, st1, code + fr, else_ifs(s, e, st1, f));
                    }
                },
                _ => {},
            }
        }
    }
}

proof fn lemma_else_tail(s: Seq<char>, p: int, st: St, f: Flavor)
    ensures
        counts(st, else_tail(s, p, st, f)),
    decreases s.len() - p, 3int,
{
    if 0 <= p <= s.len() {
        let w = crate::lexer::ws(s, p);
        crate::classes::lemma_run_end(s, p, crate::classes::Class::Space);
        if crate::classes::at(s, w, crate::grammar::kw_else()) {
            let w2 = crate::lexer::ws(s, w + 4);
            crate::classes::lemma_run_end(s, w + 4, crate::classes::Class::Space);
            lemma_must_inner(s, w2, st, f);
            match must_inner(s, w2, st, f).0 {
                Out::Done(_, b) => {
                    lemma_written_one(FragV::Code(crate::grammar::kw_else()));
                    lemma_written_concat(seq![FragV::Code(crate::grammar::kw_else())], b);
                },
                _ => {},
            }
        }
    }
}

proof fn lemma_must_inner(s: Seq<char>, p: int, st: St, f: Flavor)
    ensures
        counts(st, must_inner(s, p, st, f)),
    decreases s.len() - p, 2int,
{
    if 0 <= p <= s.len() {
        lemma_inner_tc(s, p, st, f);
    }
}

proof fn lemma_inner_tc(s: Seq<char>, p: int, st: St, f: Flavor)
    ensures
        counts(st, inner_tc(s, p, st, f)),
    decreases s.len() - p, 1int,
{
    if 0 <= p <= s.len() && crate::classes::char_at(s, p, '{') {
        lemma_content(s, p + 1, st, f, true);
        match content(s, p + 1, st, f, true).0 {
            Out::Done(_, c) => {
                lemma_written_one(FragV::Open);
                lemma_written_one(FragV::Close);
                lemma_written_concat(seq![FragV::Open], c);
                lemma_written_concat(seq![FragV::Open] + c, seq![FragV::Close]);
            },
            _ => {},
        }
    }
}

proof fn lemma_component_code(
    lets: Seq<FragV>,
    body: Seq<FragV>,
    fn_name: Seq<char>,
    names: Seq<Seq<char>>,
)
    ensures
        written(component_code(lets, body, fn_name, names)) == written(lets) + written(body),
{
    let tail = seq![
        FragV::ChildClose,
        FragV::Call { fn_name, args: crate::order::sort_names(names) },
        FragV::Close,
    ];
    lemma_written_one(FragV::Open);
    lemma_written_one(FragV::ChildOpen);
    let call = FragV::Call { fn_name, args: crate::order::sort_names(names) };
    lemma_written_one(FragV::ChildClose);
    lemma_written_one(call);
    lemma_written_one(FragV::Close);
    lemma_written_concat(seq![call], seq![FragV::Close]);
    lemma_written_concat(seq![FragV::ChildClose], seq![call] + seq![FragV::Close]);
    assert(tail =~= seq![FragV::ChildClose] + (seq![call] + seq![FragV::Close]));
    assert(written(tail) == 0);
    lemma_written_concat(seq![FragV::Open], lets);
    lemma_written_concat(seq![FragV::Open] + lets, seq![FragV::ChildOpen]);
    lemma_written_concat(seq![FragV::Open] + lets + seq![FragV::ChildOpen], body);
    lemma_written_concat(seq![FragV::Open] + lets + seq![FragV::ChildOpen] + body, tail);
}

proof fn lemma_component(s: Seq<char>, p: int, st: St, f: Flavor)
    ensures
        counts(st, component(s, p, st, f)),
    decreases s.len() - p, 7int,
{
    if 0 <= p <= s.len() && crate::classes::char_at(s, p, '<') {
        let w = crate::lexer::ws(s, p + 1);
        crate::classes::lemma_run_end(s, p + 1, crate::classes::Class::Space);
        match crate::lexer::tag_ident(s, w) {
            None => {},
            Some(te) => {
                crate::classes::lemma_run_end(s, w + 1, crate::classes::Class::AsciiAlnum);
                lemma_attributes(s, te, st, f);
                let (ao, st1) = attributes(s, te, st, f);
                match ao {
                    Out::Done(ae, (lets, names)) => {
                        if te <= ae <= s.len() {
                            let w2 = crate::lexer::ws(s, ae);
                            crate::classes::lemma_run_end(s, ae, crate::classes::Class::Space);
                            let tag = s.subrange(w, te);
                            assert(written(Seq::<FragV>::empty()) == 0);
                            match crate::context::find_use(st1.uses, tag) {
                                Some(i) => {
                                    lemma_component_code(
                                        lets,
                                        Seq::empty(),
                                        st1.uses[i].fn_name,
                                        names,
                                    );
                                },
                                None => {},
                            }
                            if !crate::classes::at(s, w2, seq!['/', '>']) && crate::classes::char_at(
                                s,
                                w2,
                                '>',
                            ) {
                                lemma_content(s, w2 + 1, st1, f, false);
                                let (co, st2) = content(s, w2 + 1, st1, f, false);
                                match co {
                                    Out::Done(_, body) => {
                                        match crate::context::find_use(st2.uses, tag) {
                                            Some(i) => {
                                                lemma_component_code(
                                                    lets,
                                                    body,
                                                    st2.uses[i].fn_name,
                                                    names,
                                                );
                                            },
                                            None => {},
                                        }
                                    },
                                    _ => {},
                                }
                            }
                        }
                    },
                    _ => {},
                }
            },
        }
    }
}

/// Attributes count what their bindings write.
pub open spec fn attrs_count(st: St, r: AttrsStep) -> bool {
    match r.0 {
        Out::Done(_, (fr, _)) => r.1.text_size == st.text_size + written(fr),
        _ => true,
    }
}

proof fn lemma_attributes(s: Seq<char>, p: int, st: St, f: Flavor)
    ensures
        attrs_count(st, attributes(s, p, st, f)),
    decreases s.len() - p, 3int,
{
    assert(written(Seq::<FragV>::empty()) == 0);
    if 0 <= p <= s.len() {
        let w = crate::lexer::ws(s, p);
        crate::classes::lemma_run_end(s, p, crate::classes::Class::Space);
        if w != p {
            lemma_attribute(s, w, st, f);
            let (o, st1) = attribute(s, w, st, f);
            match o {
                Out::Done(e, (fr, name)) => {
                    if p < e <= s.len() {
                        lemma_attributes(s, e, st1, f);
                        match attributes(s, e, st1, f).0 {
                            Out::Done(_, (frs, _)) => {
                                lemma_written_concat(fr, frs);
                            },
                            _ => {},
                        }
                    }
                },
                _ => {},
            }
        }
    }
}

proof fn lemma_attribute(s: Seq<char>, q: int, st: St, f: Flavor)
    ensures
        match attribute(s, q, st, f).0 {
            Out::Done(_, (fr, _)) => attribute(s, q, st, f).1.text_size == st.text_size + written(fr),
            _ => true,
        },
    decreases s.len() - q, 3int,
{
    if 0 <= q <= s.len() {
        match crate::lexer::attr_name(s, q) {
            None => {},
            Some(ne) => {
                crate::classes::lemma_run_end(s, q + 1, crate::classes::Class::AsciiWord);
                crate::classes::lemma_run_end(s, ne, crate::classes::Class::Space);
                let name = s.subrange(q, ne);
                let w = crate::lexer::ws(s, ne);
                if crate::classes::char_at(s, w, '=') {
                    crate::classes::lemma_run_end(s, w + 1, crate::classes::Class::Space);
                    lemma_attr_value(s, crate::lexer::ws(s, w + 1), st, f);
                    match attr_value(s, crate::lexer::ws(s, w + 1), st, f).0 {
                        Out::Done(_, v) => {
                            lemma_attr_frags(name, v);
                        },
                        _ => {},
                    }
                }
                lemma_attr_frags(name, AttrVal::Simple(crate::code::ValueV::Bool(true)));
            },
        }
    }
}

proof fn lemma_attr_frags(name: Seq<char>, v: AttrVal)
    ensures
        written(attr_frags(name, v)) == value_written(v),
{
    match v {
        AttrVal::Simple(x) => {
            lemma_written_one(FragV::Let { name, value: x });
        },
        AttrVal::Template(b) => {
            lemma_written_one(FragV::LetClosureOpen(name));
            lemma_written_one(FragV::LetClosureClose);
            lemma_written_concat(seq![FragV::LetClosureOpen(name)], b);
            lemma_written_concat(seq![FragV::LetClosureOpen(name)] + b, seq![FragV::LetClosureClose]);
        },
    }
}

proof fn lemma_attr_value(s: Seq<char>, v: int, st: St, f: Flavor)
    ensures
        match attr_value(s, v, st, f).0 {
            Out::Done(_, x) => attr_value(s, v, st, f).1.text_size == st.text_size + value_written(x),
            _ => true,
        },
    decreases s.len() - v, 2int,
{
    if 0 <= v <= s.len() {
        lemma_inner_tc(s, v, st, f);
    }
}

/// The text size a template counts is the length of the literal text its
/// code writes: every rule counts exactly the text it emits, and nothing
/// else changes the count.
pub proof fn text_size_counts_written_text(s: Seq<char>, st: St, f: Flavor)
    ensures
        counts(st, template(s, st, f)),
{
    let b = if crate::classes::char_at(s, 0, '\u{FEFF}') {
        1int
    } else {
        0int
    };
    let w = if f == Flavor::Macro {
        b
    } else {
        crate::lexer::ws(s, b)
    };
    lemma_silent(s, w, st, dialect(f), false);
    let (po, st1) = template_params(s, w, st, dialect(f));
    match po {
        Out::Done(e, _) => {
            lemma_content(s, e, st1, f, false);
        },
        _ => {
            lemma_content(s, w, st, f, false);
        },
    }
}

} // verus!
