//! The grammar of the `v!` macro, over the token trees the macro is given:
//! HTML tags, attributes, entities and comments are kept as text, and
//! `{ ... }` groups become values that are bound once and rendered where
//! they stand.
use vstd::prelude::*;
use vstd::utf8::encode_utf8;
use crate::classes::{ascii_alnum, ascii_alpha, ascii_digit, ascii_hex};
use crate::diagnostics::decimal;
use crate::lexer::{caseless, is_caseless};
use crate::names::{trim, trim_str};
use crate::syntax::{expr_error, syn_expr_ok};
use crate::text::{append_str, chars_of, push_char, suffix_bytes};
use crate::view_file::{ViewCode, ViewCodeV, ViewPiece, ViewPieceV};
use crate::diagnostics::push_decimal;

verus! {

/// The delimiter of a token group.
#[derive(Clone, Copy, PartialEq, Eq, Structural, Debug)]
pub enum Delim {
    Paren,
    Brace,
    Bracket,
    NoDelim,
}

/// A token tree as the macro sees it. Each token carries the text it prints
/// as (`to_string`); a group also carries its inner trees and the text of its
/// inner stream.
#[derive(Debug)]
pub enum Tok {
    Group { delim: Delim, inner: Vec<Tok>, text: String, stream: String },
    Ident(String),
    Punct(char),
    Literal(String),
}

/// The text a token prints as.
pub open spec fn tok_text(t: Tok) -> Seq<char> {
    match t {
        Tok::Group { text, .. } => text@,
        Tok::Ident(s) => s@,
        Tok::Punct(c) => seq![c],
        Tok::Literal(s) => s@,
    }
}

/// What the template becomes: a value rendered in place, or text.
pub enum VNodeV {
    Expr(Seq<char>),
    Text(Seq<char>),
}

/// A value binding: its name and its code.
pub type DefV = (Seq<char>, Seq<char>);

pub open spec fn at_punct(ts: Seq<Tok>, k: int, c: char) -> bool {
    0 <= k < ts.len() && (ts[k] matches Tok::Punct(p) && p == c)
}

pub open spec fn all_hex_from(s: Seq<char>, i: int) -> bool {
    forall|j: int| i <= j < s.len() ==> ascii_hex(#[trigger] s[j])
}

pub open spec fn all_digits(s: Seq<char>) -> bool {
    forall|j: int| 0 <= j < s.len() ==> ascii_digit(#[trigger] s[j])
}

pub open spec fn all_alpha(s: Seq<char>) -> bool {
    forall|j: int| 0 <= j < s.len() ==> ascii_alpha(#[trigger] s[j])
}

pub open spec fn all_alnum_from(s: Seq<char>, i: int) -> bool {
    forall|j: int| i <= j < s.len() ==> ascii_alnum(#[trigger] s[j])
}

/// A numeric character reference after `&#`: `x` and one to six hex digits,
/// or one to five decimal digits.
pub open spec fn numeric_ref(t: Tok) -> bool {
    match t {
        Tok::Ident(s) => s@.len() > 0 && (s@[0] == 'x' || s@[0] == 'X') && 1 <= s@.len() - 1 <= 6
            && all_hex_from(s@, 1),
        Tok::Literal(s) => 1 <= s@.len() <= 5 && all_digits(s@),
        _ => false,
    }
}

/// A named character reference after `&`: one to thirty ASCII letters.
pub open spec fn named_ref(t: Tok) -> bool {
    t matches Tok::Ident(s) && 1 <= s@.len() <= 30 && all_alpha(s@)
}

/// An HTML entity at `k`: `&`, a reference, and an optional `;`.
pub open spec fn html_entity(ts: Seq<Tok>, k: int) -> Option<(int, Seq<char>)> {
    if !at_punct(ts, k, '&') {
        None
    } else {
        let body: Option<(int, Seq<char>)> = if at_punct(ts, k + 1, '#') && k + 2 < ts.len()
            && numeric_ref(ts[k + 2]) {
            Some((k + 3, seq!['#'] + tok_text(ts[k + 2])))
        } else if k + 1 < ts.len() && named_ref(ts[k + 1]) {
            Some((k + 2, tok_text(ts[k + 1])))
        } else {
            None
        };
        match body {
            None => None,
            Some((b, t)) => if at_punct(ts, b, ';') {
                Some((b + 1, seq!['&'] + t + seq![';']))
            } else {
                Some((b, seq!['&'] + t))
            },
        }
    }
}

/// One item of text at `k`: an entity, or a token that is neither a group
/// nor `<`.
pub open spec fn text_item(ts: Seq<Tok>, k: int) -> Option<(int, Seq<char>)> {
    match html_entity(ts, k) {
        Some(x) => Some(x),
        None => if 0 <= k < ts.len() && !(ts[k] is Group) && !at_punct(ts, k, '<') {
            Some((k + 1, tok_text(ts[k])))
        } else {
            None
        },
    }
}

/// Text so far followed by an item, a space between them unless the text
/// is empty.
pub open spec fn join(acc: Seq<char>, item: Seq<char>) -> Seq<char> {
    if acc.len() > 0 {
        acc + seq![' '] + item
    } else {
        acc + item
    }
}

pub open spec fn text_from(ts: Seq<Tok>, k: int, acc: Seq<char>) -> (int, Seq<char>)
    decreases ts.len() - k,
{
    match text_item(ts, k) {
        Some((e, t)) if k < e <= ts.len() => text_from(ts, e, join(acc, t)),
        _ => (k, acc),
    }
}

/// Text at `k`: items as many as follow, at least one, joined by spaces.
pub open spec fn text(ts: Seq<Tok>, k: int) -> Option<(int, Seq<char>)> {
    let (e, t) = text_from(ts, k, Seq::empty());
    if e > k {
        Some((e, t))
    } else {
        None
    }
}

/// The first identifier of a tag name: an ASCII letter, then ASCII letters
/// and digits.
pub open spec fn tag_start_ident(t: Tok) -> bool {
    t matches Tok::Ident(s) && s@.len() > 0 && ascii_alpha(s@[0]) && all_alnum_from(s@, 1)
}

/// A later identifier of a tag name: ASCII letters and digits.
pub open spec fn tag_ident(t: Tok) -> bool {
    t matches Tok::Ident(s) && all_alnum_from(s@, 0)
}

/// A number in a tag name: a literal that starts with a digit.
pub open spec fn number(t: Tok) -> bool {
    t matches Tok::Literal(s) && s@.len() > 0 && ascii_digit(s@[0])
}

/// Hyphens and numbers from `k`, their texts appended to `acc`.
pub open spec fn non_alpha_from(ts: Seq<Tok>, k: int, acc: Seq<char>) -> (int, Seq<char>)
    decreases ts.len() - k,
{
    if at_punct(ts, k, '-') || (0 <= k < ts.len() && number(ts[k])) {
        non_alpha_from(ts, k + 1, acc + tok_text(ts[k]))
    } else {
        (k, acc)
    }
}

/// The rest of a tag name from `k`: runs of hyphens and numbers each
/// followed by an identifier.
pub open spec fn name_rest(ts: Seq<Tok>, k: int, acc: Seq<char>) -> (int, Seq<char>)
    decreases ts.len() - k,
{
    let (e, na) = non_alpha_from(ts, k, Seq::empty());
    if k < e < ts.len() && tag_ident(ts[e]) {
        name_rest(ts, e + 1, acc + na + tok_text(ts[e]))
    } else {
        (k, acc)
    }
}

/// A tag name at `k` (`my-tag`, `h1`), trimmed.
pub open spec fn tag_name(ts: Seq<Tok>, k: int) -> Option<(int, Seq<char>)> {
    if 0 <= k < ts.len() && tag_start_ident(ts[k]) {
        let (e, r) = name_rest(ts, k + 1, Seq::empty());
        Some((e, trim(tok_text(ts[k]) + r)))
    } else {
        None
    }
}

/// A token that may be part of an attribute name: not `=`, `>` or `/`, not
/// a quoted literal, not a `{ ... }` group.
pub open spec fn name_token(t: Tok) -> bool {
    match t {
        Tok::Punct(p) => p != '=' && p != '>' && p != '/',
        Tok::Literal(s) => !(s@.len() > 0 && (s@[0] == '"' || s@[0] == '\'')),
        Tok::Group { delim, .. } => delim != Delim::Brace,
        Tok::Ident(_) => true,
    }
}

pub open spec fn attr_name_from(ts: Seq<Tok>, k: int, acc: Seq<char>) -> (int, Seq<char>)
    decreases ts.len() - k,
{
    if 0 <= k < ts.len() && name_token(ts[k]) {
        attr_name_from(ts, k + 1, acc + tok_text(ts[k]))
    } else {
        (k, acc)
    }
}

/// An attribute name at `k`: name tokens, at least one, their texts
/// concatenated.
pub open spec fn attr_name(ts: Seq<Tok>, k: int) -> Option<(int, Seq<char>)> {
    let (e, n) = attr_name_from(ts, k, Seq::empty());
    if e > k {
        Some((e, n))
    } else {
        None
    }
}

/// A plain attribute value: a quoted or numeric literal, or an identifier.
pub open spec fn attr_value(t: Tok) -> Option<Seq<char>> {
    match t {
        Tok::Literal(s) => if s@.len() > 0 && (s@[0] == '"' || s@[0] == '\'' || ascii_digit(
            s@[0],
        )) {
            Some(s@)
        } else {
            None
        },
        Tok::Ident(s) => Some(s@),
        _ => None,
    }
}

/// The name bound for a `{ ... }` group that `n` tokens follow.
pub open spec fn exp_name(n: nat) -> Seq<char> {
    "_exp"@ + decimal(n)
}

/// The code bound for a group's stream: in parentheses when it is an
/// expression, in braces otherwise.
pub open spec fn group_code(stream: Seq<char>, expr: bool) -> Seq<char> {
    if expr {
        seq!['('] + stream + seq![')']
    } else {
        seq!['{'] + stream + seq!['}']
    }
}

/// A `{ ... }` group at `k`: its binding (its stream in parentheses when
/// `syn` reads the stream as an expression, in braces otherwise), and the
/// node that renders it.
pub open spec fn expr_at(ts: Seq<Tok>, k: int) -> Option<(int, DefV, Seq<char>)> {
    if 0 <= k < ts.len() && (ts[k] matches Tok::Group { delim, .. } && delim == Delim::Brace) {
        let name = exp_name((ts.len() - (k + 1)) as nat);
        Some((k + 1, (name, group_code(ts[k]->stream@, syn_expr_ok(ts[k]->stream@))), name))
    } else {
        None
    }
}

/// The outcome of the tag rules: end, bindings, nodes.
pub type Parts = (int, Seq<DefV>, Seq<VNodeV>);

/// One attribute at `k`: a name, and `=` with a `{ ... }` group or a plain
/// value.
pub open spec fn attribute(ts: Seq<Tok>, k: int) -> Option<Parts> {
    match attr_name(ts, k) {
        None => None,
        Some((ne, name)) => if at_punct(ts, ne, '=') {
            match expr_at(ts, ne + 1) {
                Some((e, def, x)) => Some(
                    (e, seq![def], seq![VNodeV::Text(name + seq!['=']), VNodeV::Expr(x)]),
                ),
                None => if ne + 1 < ts.len() && attr_value(ts[ne + 1]) is Some {
                    Some(
                        (
                            ne + 2,
                            Seq::empty(),
                            seq![
                                VNodeV::Text(name + seq!['=']),
                                VNodeV::Text(attr_value(ts[ne + 1])->0),
                            ],
                        ),
                    )
                } else {
                    Some((ne, Seq::empty(), seq![VNodeV::Text(name)]))
                },
            }
        } else {
            Some((ne, Seq::empty(), seq![VNodeV::Text(name)]))
        },
    }
}

/// Attributes from `k`, as many as follow.
pub open spec fn attributes(ts: Seq<Tok>, k: int) -> Parts
    decreases ts.len() - k,
{
    match attribute(ts, k) {
        Some((e, d, n)) => if k < e <= ts.len() {
            let (e2, d2, n2) = attributes(ts, e);
            (e2, d + d2, n + n2)
        } else {
            (k, Seq::empty(), Seq::empty())
        },
        None => (k, Seq::empty(), Seq::empty()),
    }
}

/// A tag's text with its attributes: on its own when there are none.
pub open spec fn tag_nodes(head: Seq<char>, attrs: Seq<VNodeV>, tail: Seq<char>) -> Seq<VNodeV> {
    if attrs.len() == 0 {
        seq![VNodeV::Text(head + tail)]
    } else {
        seq![VNodeV::Text(head)] + attrs + seq![VNodeV::Text(tail)]
    }
}

/// `<name attrs>` at `k`.
pub open spec fn open_tag(ts: Seq<Tok>, k: int) -> Option<Parts> {
    if !at_punct(ts, k, '<') {
        None
    } else {
        match tag_name(ts, k + 1) {
            None => None,
            Some((te, name)) => {
                let (ae, d, attrs) = attributes(ts, te);
                if at_punct(ts, ae, '>') {
                    Some((ae + 1, d, tag_nodes(seq!['<'] + name, attrs, seq!['>'])))
                } else {
                    None
                }
            },
        }
    }
}

/// `</name>` at `k`.
pub open spec fn close_tag(ts: Seq<Tok>, k: int) -> Option<Parts> {
    if !(at_punct(ts, k, '<') && at_punct(ts, k + 1, '/')) {
        None
    } else {
        match tag_name(ts, k + 2) {
            Some((te, name)) => if at_punct(ts, te, '>') {
                Some((te + 1, Seq::empty(), seq![VNodeV::Text(seq!['<', '/'] + name + seq!['>'])]))
            } else {
                None
            },
            None => None,
        }
    }
}

/// `<name attrs/>` at `k`.
pub open spec fn self_close_tag(ts: Seq<Tok>, k: int) -> Option<Parts> {
    if !at_punct(ts, k, '<') {
        None
    } else {
        match tag_name(ts, k + 1) {
            None => None,
            Some((te, name)) => {
                let (ae, d, attrs) = attributes(ts, te);
                if at_punct(ts, ae, '/') && at_punct(ts, ae + 1, '>') {
                    Some((ae + 2, d, tag_nodes(seq!['<'] + name, attrs, seq!['/', '>'])))
                } else {
                    None
                }
            },
        }
    }
}

/// `s` equals `w` (given in lowercase) in either case of each ASCII letter.
pub open spec fn caseless_eq(s: Seq<char>, w: Seq<char>) -> bool {
    s.len() == w.len() && forall|j: int| 0 <= j < s.len() ==> caseless(#[trigger] s[j], w[j])
}

/// An identifier at `k` that reads `w` in any case.
pub open spec fn word_at(ts: Seq<Tok>, k: int, w: Seq<char>) -> bool {
    0 <= k < ts.len() && (ts[k] matches Tok::Ident(s) && caseless_eq(s@, w))
}

/// `<!DOCTYPE html>` at `k`, in any case.
pub open spec fn doctype(ts: Seq<Tok>, k: int) -> Option<Parts> {
    if at_punct(ts, k, '<') && at_punct(ts, k + 1, '!') && word_at(ts, k + 2, "doctype"@)
        && word_at(ts, k + 3, "html"@) && at_punct(ts, k + 4, '>') {
        Some(
            (
                k + 5,
                Seq::empty(),
                seq![
                    VNodeV::Text(
                        seq!['<', '!'] + tok_text(ts[k + 2]) + seq![' '] + tok_text(ts[k + 3])
                            + seq!['>'],
                    ),
                ],
            ),
        )
    } else {
        None
    }
}

/// The body of a comment from `k`: `{ ... }` groups bound and rendered,
/// other tokens as text, up to and including `-->`.
pub open spec fn comment_body(ts: Seq<Tok>, k: int) -> Option<Parts>
    decreases ts.len() - k,
{
    if k < 0 || k >= ts.len() {
        None
    } else if at_punct(ts, k, '-') && at_punct(ts, k + 1, '-') && at_punct(ts, k + 2, '>') {
        Some((k + 3, Seq::empty(), seq![VNodeV::Text(seq!['-', '-', '>'])]))
    } else {
        let (d, n) = match expr_at(ts, k) {
            Some((_, def, x)) => (seq![def], seq![VNodeV::Expr(x)]),
            None => (Seq::empty(), seq![VNodeV::Text(tok_text(ts[k]))]),
        };
        match comment_body(ts, k + 1) {
            Some((e, d2, n2)) => Some((e, d + d2, n + n2)),
            None => None,
        }
    }
}

/// `<!-- ... -->` at `k`.
pub open spec fn html_comment(ts: Seq<Tok>, k: int) -> Option<Parts> {
    if at_punct(ts, k, '<') && at_punct(ts, k + 1, '!') && at_punct(ts, k + 2, '-') && at_punct(
        ts,
        k + 3,
        '-',
    ) {
        match comment_body(ts, k + 4) {
            Some((e, d, n)) => Some((e, d, seq![VNodeV::Text(seq!['<', '!', '-', '-'])] + n)),
            None => None,
        }
    } else {
        None
    }
}

/// A tag at `k` (a token is there): an opening, closing or self-closing
/// tag, a doctype, a comment, or else the token as text.
pub open spec fn tag(ts: Seq<Tok>, k: int) -> Parts {
    if open_tag(ts, k) is Some {
        open_tag(ts, k)->0
    } else if close_tag(ts, k) is Some {
        close_tag(ts, k)->0
    } else if self_close_tag(ts, k) is Some {
        self_close_tag(ts, k)->0
    } else if doctype(ts, k) is Some {
        doctype(ts, k)->0
    } else if html_comment(ts, k) is Some {
        html_comment(ts, k)->0
    } else {
        (k + 1, Seq::empty(), seq![VNodeV::Text(tok_text(ts[k]))])
    }
}

/// The template over `ts` from `k` to the end: its bindings and nodes.
pub open spec fn template(ts: Seq<Tok>, k: int) -> (Seq<DefV>, Seq<VNodeV>)
    decreases ts, ts.len() - k, 1int,
{
    if k < 0 || k >= ts.len() {
        (Seq::empty(), Seq::empty())
    } else {
        let (e, d, n) = item(ts, k);
        if k < e <= ts.len() {
            let (d2, n2) = template(ts, e);
            (d + d2, n + n2)
        } else {
            (Seq::empty(), Seq::empty())
        }
    }
}

/// One item at `k` (a token is there): a `{ ... }` group, a `( ... )` or
/// `[ ... ]` group with the template inside it, text, or a tag.
pub open spec fn item(ts: Seq<Tok>, k: int) -> Parts
    decreases ts, ts.len() - k, 0int,
{
    if k < 0 || k >= ts.len() {
        (k + 1, Seq::empty(), Seq::empty())
    } else if expr_at(ts, k) is Some {
        let (e, def, x) = expr_at(ts, k)->0;
        (e, seq![def], seq![VNodeV::Expr(x)])
    } else if ts[k] matches Tok::Group { delim, inner, .. } && (delim == Delim::Paren || delim
        == Delim::Bracket) {
        let g = ts[k];
        proof {
            assert(decreases_to!(ts => ts[k]));
        }
        let (d, n) = template(g->inner@, 0);
        let (open, close) = if g->delim == Delim::Paren {
            ('(', ')')
        } else {
            ('[', ']')
        };
        (k + 1, d, seq![VNodeV::Text(seq![open])] + n + seq![VNodeV::Text(seq![close])])
    } else if text(ts, k) is Some {
        let (e, t) = text(ts, k)->0;
        (e, Seq::empty(), seq![VNodeV::Text(t)])
    } else {
        tag(ts, k)
    }
}

/// A parenthesised token group is written between `(` and `)`, and a
/// bracketed one between `[` and `]`, with what its inner trees give in
/// between; it is one token long.
pub proof fn delimited_groups_keep_their_delimiters(ts: Seq<Tok>, k: int)
    requires
        0 <= k < ts.len(),
        ts[k] matches Tok::Group { delim, .. } && (delim == Delim::Paren || delim
            == Delim::Bracket),
    ensures
        item(ts, k).0 == k + 1,
        item(ts, k).1 == template(ts[k]->inner@, 0).0,
        item(ts, k).2 == seq![
            VNodeV::Text(seq![if ts[k]->delim == Delim::Paren { '(' } else { '[' }]),
        ] + template(ts[k]->inner@, 0).1 + seq![
            VNodeV::Text(seq![if ts[k]->delim == Delim::Paren { ')' } else { ']' }]),
        ],
{
    assert(expr_at(ts, k) is None);
}

/// The words of identifier tokens from `k`, separated by single spaces.
pub open spec fn spaced_words(ts: Seq<Tok>, k: int) -> Seq<char>
    decreases ts.len() - k,
{
    if k < 0 || k >= ts.len() {
        Seq::empty()
    } else if k == ts.len() - 1 {
        ts[k]->Ident_0@
    } else {
        ts[k]->Ident_0@ + seq![' '] + spaced_words(ts, k + 1)
    }
}

/// Every token of `ts` is a nonempty identifier.
pub open spec fn all_words(ts: Seq<Tok>) -> bool {
    forall|i: int| 0 <= i < ts.len() ==> (#[trigger] ts[i] matches Tok::Ident(w) && w@.len() > 0)
}

proof fn lemma_words_from(ts: Seq<Tok>, k: int, acc: Seq<char>)
    requires
        all_words(ts),
        0 <= k <= ts.len(),
        acc.len() > 0,
    ensures
        text_from(ts, k, acc) == (ts.len() as int, if k < ts.len() {
            acc + seq![' '] + spaced_words(ts, k)
        } else {
            acc
        }),
    decreases ts.len() - k,
{
    if k < ts.len() {
        assert(ts[k] matches Tok::Ident(w) && w@.len() > 0);
        assert(html_entity(ts, k) is None);
        assert(text_item(ts, k) == Some((k + 1, ts[k]->Ident_0@)));
        let acc2 = acc + seq![' '] + ts[k]->Ident_0@;
        lemma_words_from(ts, k + 1, acc2);
        if k + 1 < ts.len() {
            assert(acc2 + seq![' '] + spaced_words(ts, k + 1) =~= acc + seq![' '] + spaced_words(
                ts,
                k,
            ));
        } else {
            assert(acc2 =~= acc + seq![' '] + spaced_words(ts, k));
        }
    }
}

/// Identifiers alone are one text: the words separated by single spaces,
/// written in one piece, binding nothing.
pub proof fn words_are_joined_by_spaces(ts: Seq<Tok>)
    requires
        all_words(ts),
        ts.len() > 0,
    ensures
        template(ts, 0) == (Seq::<DefV>::empty(), seq![VNodeV::Text(spaced_words(ts, 0))]),
        assemble(template(ts, 0).1).0 == seq![ViewPieceV::Write(spaced_words(ts, 0))],
{
    let n = ts.len() as int;
    assert(ts[0] matches Tok::Ident(w) && w@.len() > 0);
    let w0 = ts[0]->Ident_0@;
    assert(html_entity(ts, 0) is None);
    assert(text_item(ts, 0) == Some((1int, w0)));
    assert(join(Seq::<char>::empty(), w0) =~= w0);
    lemma_words_from(ts, 1, w0);
    if n > 1 {
        assert(w0 + seq![' '] + spaced_words(ts, 1) =~= spaced_words(ts, 0));
    } else {
        assert(w0 =~= spaced_words(ts, 0));
    }
    let t = spaced_words(ts, 0);
    assert(text(ts, 0) == Some((n, t)));
    assert(expr_at(ts, 0) is None);
    assert(item(ts, 0) == (n, Seq::<DefV>::empty(), seq![VNodeV::Text(t)]));
    assert(template(ts, n) == (Seq::<DefV>::empty(), Seq::<VNodeV>::empty()));
    assert(Seq::<DefV>::empty() + Seq::<DefV>::empty() =~= Seq::<DefV>::empty());
    assert(seq![VNodeV::Text(t)] + Seq::<VNodeV>::empty() =~= seq![VNodeV::Text(t)]);
    assert(t.len() > 0);
    let init = Assembly { body: Seq::empty(), buf: Seq::empty(), first: true, size: 0 };
    let ns = seq![VNodeV::Text(t)];
    let a1 = assemble_step(init, ns[0]);
    assert(a1.buf =~= t);
    assert(ns.drop_first() =~= Seq::<VNodeV>::empty());
    assert(assemble_from(init, ns) == assemble_from(a1, ns.drop_first()));
    assert(assemble_from(a1, Seq::<VNodeV>::empty()) == a1);
    assert(a1.body.push(ViewPieceV::Write(a1.buf)) =~= seq![ViewPieceV::Write(t)]);
}

/// The state of assembling the body: pieces so far, text waiting to be
/// written, whether no text came yet, and the bytes of text counted.
pub struct Assembly {
    pub body: Seq<ViewPieceV>,
    pub buf: Seq<char>,
    pub first: bool,
    pub size: nat,
}

/// `a + b`, or `usize::MAX` when that is larger.
pub open spec fn sat_add(a: nat, b: nat) -> nat {
    if a + b > usize::MAX {
        usize::MAX as nat
    } else {
        a + b
    }
}

/// One node added to the body: text waits in the buffer (after a space,
/// unless it is the first text); a value writes the waiting text (with a
/// space after it) and is rendered.
pub open spec fn assemble_step(a: Assembly, n: VNodeV) -> Assembly {
    match n {
        VNodeV::Expr(x) => Assembly {
            body: (if a.buf.len() > 0 {
                a.body.push(ViewPieceV::Write(a.buf + seq![' ']))
            } else {
                a.body
            }).push(ViewPieceV::Render(x)),
            buf: Seq::empty(),
            first: a.first,
            size: a.size,
        },
        VNodeV::Text(t) => Assembly {
            body: a.body,
            buf: if a.first {
                a.buf + t
            } else {
                a.buf + seq![' '] + t
            },
            first: false,
            size: sat_add(a.size, encode_utf8(t).len()),
        },
    }
}

pub open spec fn assemble_from(a: Assembly, ns: Seq<VNodeV>) -> Assembly
    decreases ns.len(),
{
    if ns.len() == 0 {
        a
    } else {
        assemble_from(assemble_step(a, ns[0]), ns.drop_first())
    }
}

/// The body and text size of nodes: the text between values written in one
/// piece, the last one too.
pub open spec fn assemble(ns: Seq<VNodeV>) -> (Seq<ViewPieceV>, nat) {
    let a = assemble_from(
        Assembly { body: Seq::empty(), buf: Seq::empty(), first: true, size: 0 },
        ns,
    );
    (
        if a.buf.len() > 0 {
            a.body.push(ViewPieceV::Write(a.buf))
        } else {
            a.body
        },
        a.size,
    )
}


/// A node of the template as the compiler holds it.
#[derive(Debug)]
pub enum VNode {
    Expr(String),
    Text(String),
}

impl DeepView for VNode {
    type V = VNodeV;

    open spec fn deep_view(&self) -> VNodeV {
        match self {
            VNode::Expr(x) => VNodeV::Expr(x@),
            VNode::Text(t) => VNodeV::Text(t@),
        }
    }
}

/// Bindings and nodes as the compiler holds them.
pub type PartsExec = (usize, Vec<(String, String)>, Vec<VNode>);

pub open spec fn parts_view(p: PartsExec) -> Parts {
    (p.0 as int, p.1.deep_view(), p.2.deep_view())
}

pub open spec fn opt_parts(r: Option<PartsExec>) -> Option<Parts> {
    match r {
        Some(p) => Some(parts_view(p)),
        None => None,
    }
}

pub open spec fn opt_text(r: Option<(usize, String)>) -> Option<(int, Seq<char>)> {
    match r {
        Some((e, t)) => Some((e as int, t@)),
        None => None,
    }
}

/// The text a token prints as.
pub fn tok_string(t: &Tok) -> (r: String)
    ensures
        r@ == tok_text(*t),
{
    match t {
        Tok::Group { text, .. } => text.clone(),
        Tok::Ident(s) => s.clone(),
        Tok::Punct(c) => {
            let mut r = String::new();
            push_char(&mut r, *c);
            assert(r@ =~= seq![*c]);
            r
        },
        Tok::Literal(s) => s.clone(),
    }
}

fn is_punct(ts: &[Tok], k: usize, c: char) -> (r: bool)
    ensures
        r == at_punct(ts@, k as int, c),
{
    if k < ts.len() {
        match &ts[k] {
            Tok::Punct(p) => *p == c,
            _ => false,
        }
    } else {
        false
    }
}

/// Whether the characters of `s` from `i` on are hex digits.
fn hex_from(s: &str, i: usize) -> (r: bool)
    ensures
        r == all_hex_from(s@, i as int),
{
    let x = chars_of(s);
    let mut j = i;
    while j < x.len()
        invariant
            x@ == s@,
            i <= j,
            forall|m: int| i <= m < j && m < x@.len() ==> crate::classes::ascii_hex(#[trigger] x@[m]),
        decreases x@.len() - j,
    {
        let c = x[j];
        if !(('0' <= c && c <= '9') || ('a' <= c && c <= 'f') || ('A' <= c && c <= 'F')) {
            return false;
        }
        j = j + 1;
    }
    true
}

fn alnum_from(s: &str, i: usize) -> (r: bool)
    ensures
        r == all_alnum_from(s@, i as int),
{
    let x = chars_of(s);
    let mut j = i;
    while j < x.len()
        invariant
            x@ == s@,
            i <= j,
            forall|m: int| i <= m < j && m < x@.len() ==> ascii_alnum(#[trigger] x@[m]),
        decreases x@.len() - j,
    {
        let c = x[j];
        if !(('0' <= c && c <= '9') || ('a' <= c && c <= 'z') || ('A' <= c && c <= 'Z')) {
            return false;
        }
        j = j + 1;
    }
    true
}

fn digits_only(s: &str) -> (r: bool)
    ensures
        r == all_digits(s@),
{
    let x = chars_of(s);
    let mut j: usize = 0;
    while j < x.len()
        invariant
            x@ == s@,
            forall|m: int| 0 <= m < j && m < x@.len() ==> ascii_digit(#[trigger] x@[m]),
        decreases x@.len() - j,
    {
        if !('0' <= x[j] && x[j] <= '9') {
            return false;
        }
        j = j + 1;
    }
    true
}

fn letters_only(s: &str) -> (r: bool)
    ensures
        r == all_alpha(s@),
{
    let x = chars_of(s);
    let mut j: usize = 0;
    while j < x.len()
        invariant
            x@ == s@,
            forall|m: int| 0 <= m < j && m < x@.len() ==> ascii_alpha(#[trigger] x@[m]),
        decreases x@.len() - j,
    {
        let c = x[j];
        if !(('a' <= c && c <= 'z') || ('A' <= c && c <= 'Z')) {
            return false;
        }
        j = j + 1;
    }
    true
}

fn char_count(s: &str) -> (r: usize)
    ensures
        r == s@.len(),
{
    chars_of(s).len()
}

fn first_char(s: &str) -> (r: Option<char>)
    ensures
        r == (if s@.len() > 0 {
            Some(s@[0])
        } else {
            None::<char>
        }),
{
    let x = chars_of(s);
    if x.len() > 0 {
        Some(x[0])
    } else {
        None
    }
}

fn is_numeric_ref(t: &Tok) -> (r: bool)
    ensures
        r == numeric_ref(*t),
{
    match t {
        Tok::Ident(s) => match first_char(s.as_str()) {
            Some(c) => {
                let n = char_count(s.as_str());
                (c == 'x' || c == 'X') && 1 <= n - 1 && n - 1 <= 6 && hex_from(s.as_str(), 1)
            },
            None => false,
        },
        Tok::Literal(s) => {
            let n = char_count(s.as_str());
            1 <= n && n <= 5 && digits_only(s.as_str())
        },
        _ => false,
    }
}

fn is_named_ref(t: &Tok) -> (r: bool)
    ensures
        r == named_ref(*t),
{
    match t {
        Tok::Ident(s) => {
            let n = char_count(s.as_str());
            1 <= n && n <= 30 && letters_only(s.as_str())
        },
        _ => false,
    }
}

/// An HTML entity at `k`.
fn entity_at(ts: &[Tok], k: usize) -> (r: Option<(usize, String)>)
    requires
        k <= ts@.len(),
    ensures
        opt_text(r) == html_entity(ts@, k as int),
        r matches Some((e, _)) ==> k < e <= ts@.len(),
{
    let _len = ts.len();
    if !is_punct(ts, k, '&') {
        return None;
    }
    let (b, body) = if is_punct(ts, k + 1, '#') && k + 2 < ts.len() && is_numeric_ref(&ts[k + 2]) {
        let mut t = String::new();
        push_char(&mut t, '#');
        append_str(&mut t, tok_string(&ts[k + 2]).as_str());
        (k + 3, t)
    } else if k + 1 < ts.len() && is_named_ref(&ts[k + 1]) {
        (k + 2, tok_string(&ts[k + 1]))
    } else {
        return None;
    };
    let mut out = String::new();
    push_char(&mut out, '&');
    append_str(&mut out, body.as_str());
    if is_punct(ts, b, ';') {
        push_char(&mut out, ';');
        Some((b + 1, out))
    } else {
        Some((b, out))
    }
}

fn text_item_at(ts: &[Tok], k: usize) -> (r: Option<(usize, String)>)
    requires
        k <= ts@.len(),
    ensures
        opt_text(r) == text_item(ts@, k as int),
        r matches Some((e, _)) ==> k < e <= ts@.len(),
{
    match entity_at(ts, k) {
        Some(x) => Some(x),
        None => {
            if k < ts.len() && !is_punct(ts, k, '<') {
                match &ts[k] {
                    Tok::Group { .. } => None,
                    t => Some((k + 1, tok_string(t))),
                }
            } else {
                None
            }
        },
    }
}

fn join_text(acc: &mut String, item: &str)
    ensures
        final(acc)@ == join(old(acc)@, item@),
{
    if char_count(acc.as_str()) > 0 {
        push_char(acc, ' ');
    }
    append_str(acc, item);
}

/// Text at `k`.
fn text_at(ts: &[Tok], k: usize) -> (r: Option<(usize, String)>)
    requires
        k <= ts@.len(),
    ensures
        opt_text(r) == text(ts@, k as int),
        r matches Some((e, _)) ==> k < e <= ts@.len(),
{
    let mut acc = String::new();
    let mut p = k;
    loop
        invariant
            k <= p <= ts@.len(),
            text_from(ts@, k as int, Seq::empty()) == text_from(ts@, p as int, acc@),
        ensures
            k <= p <= ts@.len(),
            text_from(ts@, k as int, Seq::empty()) == (p as int, acc@),
        decreases ts@.len() - p,
    {
        match text_item_at(ts, p) {
            Some((e, t)) => {
                join_text(&mut acc, t.as_str());
                p = e;
            },
            None => {
                break;
            },
        }
    }
    if p > k {
        Some((p, acc))
    } else {
        None
    }
}

/// A `{ ... }` group at `k`: its end, its binding and the name it binds.
fn expr_def_at(ts: &[Tok], k: usize) -> (r: Option<(usize, (String, String), String)>)
    requires
        k <= ts@.len(),
    ensures
        match r {
            Some((e, d, x)) => expr_at(ts@, k as int) == Some((e as int, d.deep_view(), x@)),
            None => expr_at(ts@, k as int) is None,
        },
        r matches Some((e, _, _)) ==> e == k + 1,
{
    if k < ts.len() {
        match &ts[k] {
            Tok::Group { delim: Delim::Brace, stream, .. } => {
                let mut name = "_exp".to_owned();
                push_decimal(&mut name, ts.len() - (k + 1));
                let mut code = String::new();
                let expr = expr_error(stream.as_str()).is_none();
                if expr {
                    push_char(&mut code, '(');
                    append_str(&mut code, stream.as_str());
                    push_char(&mut code, ')');
                } else {
                    push_char(&mut code, '{');
                    append_str(&mut code, stream.as_str());
                    push_char(&mut code, '}');
                }
                assert(code@ =~= group_code(stream@, expr));
                Some((k + 1, (name.clone(), code), name))
            },
            _ => None,
        }
    } else {
        None
    }
}

fn is_tag_start_ident(t: &Tok) -> (r: bool)
    ensures
        r == tag_start_ident(*t),
{
    match t {
        Tok::Ident(s) => match first_char(s.as_str()) {
            Some(c) => (('a' <= c && c <= 'z') || ('A' <= c && c <= 'Z')) && alnum_from(
                s.as_str(),
                1,
            ),
            None => false,
        },
        _ => false,
    }
}

fn is_tag_ident(t: &Tok) -> (r: bool)
    ensures
        r == tag_ident(*t),
{
    match t {
        Tok::Ident(s) => alnum_from(s.as_str(), 0),
        _ => false,
    }
}

fn is_number(t: &Tok) -> (r: bool)
    ensures
        r == number(*t),
{
    match t {
        Tok::Literal(s) => match first_char(s.as_str()) {
            Some(c) => '0' <= c && c <= '9',
            None => false,
        },
        _ => false,
    }
}

fn non_alpha_at(ts: &[Tok], k: usize) -> (r: (usize, String))
    requires
        k <= ts@.len(),
    ensures
        non_alpha_from(ts@, k as int, Seq::empty()) == (r.0 as int, r.1@),
        k <= r.0 <= ts@.len(),
{
    let mut acc = String::new();
    let mut p = k;
    while p < ts.len() && (is_punct(ts, p, '-') || is_number(&ts[p]))
        invariant
            k <= p <= ts@.len(),
            non_alpha_from(ts@, k as int, Seq::empty()) == non_alpha_from(ts@, p as int, acc@),
        decreases ts@.len() - p,
    {
        append_str(&mut acc, tok_string(&ts[p]).as_str());
        p = p + 1;
    }
    (p, acc)
}

/// A tag name at `k`.
fn tag_name_at(ts: &[Tok], k: usize) -> (r: Option<(usize, String)>)
    requires
        k <= ts@.len(),
    ensures
        opt_text(r) == tag_name(ts@, k as int),
        r matches Some((e, _)) ==> k < e <= ts@.len(),
{
    if !(k < ts.len() && is_tag_start_ident(&ts[k])) {
        return None;
    }
    let mut acc = String::new();
    let mut p = k + 1;
    loop
        invariant
            k < p <= ts@.len(),
            name_rest(ts@, k + 1, Seq::empty()) == name_rest(ts@, p as int, acc@),
        ensures
            k < p <= ts@.len(),
            name_rest(ts@, k + 1, Seq::empty()) == (p as int, acc@),
        decreases ts@.len() - p,
    {
        let (e, na) = non_alpha_at(ts, p);
        if p < e && e < ts.len() && is_tag_ident(&ts[e]) {
            append_str(&mut acc, na.as_str());
            append_str(&mut acc, tok_string(&ts[e]).as_str());
            p = e + 1;
        } else {
            break;
        }
    }
    let mut full = tok_string(&ts[k]);
    append_str(&mut full, acc.as_str());
    Some((p, trim_str(full.as_str())))
}

fn is_name_token(t: &Tok) -> (r: bool)
    ensures
        r == name_token(*t),
{
    match t {
        Tok::Punct(p) => *p != '=' && *p != '>' && *p != '/',
        Tok::Literal(s) => match first_char(s.as_str()) {
            Some(c) => !(c == '"' || c == '\''),
            None => true,
        },
        Tok::Group { delim, .. } => *delim != Delim::Brace,
        Tok::Ident(_) => true,
    }
}

/// An attribute name at `k`.
fn attr_name_at(ts: &[Tok], k: usize) -> (r: Option<(usize, String)>)
    requires
        k <= ts@.len(),
    ensures
        opt_text(r) == attr_name(ts@, k as int),
        r matches Some((e, _)) ==> k < e <= ts@.len(),
{
    let mut acc = String::new();
    let mut p = k;
    while p < ts.len() && is_name_token(&ts[p])
        invariant
            k <= p <= ts@.len(),
            attr_name_from(ts@, k as int, Seq::empty()) == attr_name_from(ts@, p as int, acc@),
        decreases ts@.len() - p,
    {
        append_str(&mut acc, tok_string(&ts[p]).as_str());
        p = p + 1;
    }
    if p > k {
        Some((p, acc))
    } else {
        None
    }
}

fn attr_value_of(t: &Tok) -> (r: Option<String>)
    ensures
        r.deep_view() == attr_value(*t),
{
    match t {
        Tok::Literal(s) => match first_char(s.as_str()) {
            Some(c) => if c == '"' || c == '\'' || ('0' <= c && c <= '9') {
                Some(s.clone())
            } else {
                None
            },
            None => None,
        },
        Tok::Ident(s) => Some(s.clone()),
        _ => None,
    }
}

fn with_eq(name: &String) -> (r: String)
    ensures
        r@ == name@ + seq!['='],
{
    let mut r = name.clone();
    push_char(&mut r, '=');
    r
}

/// One attribute at `k`.
fn attribute_at(ts: &[Tok], k: usize) -> (r: Option<PartsExec>)
    requires
        k <= ts@.len(),
    ensures
        opt_parts(r) == attribute(ts@, k as int),
        r matches Some((e, _, _)) ==> k < e <= ts@.len(),
{
    let _len = ts.len();
    let (ne, name) = match attr_name_at(ts, k) {
        None => {
            return None;
        },
        Some(x) => x,
    };
    if is_punct(ts, ne, '=') {
        match expr_def_at(ts, ne + 1) {
            Some((e, d, x)) => {
                let ghost dv = d.deep_view();
                let ghost xv = x@;
                let defs = vec![d];
                let nodes = vec![VNode::Text(with_eq(&name)), VNode::Expr(x)];
                assert(defs.deep_view() =~= seq![dv]);
                assert(nodes.deep_view() =~= seq![
                    VNodeV::Text(name@ + seq!['=']),
                    VNodeV::Expr(xv),
                ]);
                return Some((e, defs, nodes));
            },
            None => {},
        }
        if ne + 1 < ts.len() {
            match attr_value_of(&ts[ne + 1]) {
                Some(v) => {
                    let ghost vv = v@;
                    let defs: Vec<(String, String)> = Vec::new();
                    let nodes = vec![VNode::Text(with_eq(&name)), VNode::Text(v)];
                    assert(defs.deep_view() =~= Seq::<DefV>::empty());
                    assert(nodes.deep_view() =~= seq![
                        VNodeV::Text(name@ + seq!['=']),
                        VNodeV::Text(vv),
                    ]);
                    return Some((ne + 2, defs, nodes));
                },
                None => {},
            }
        }
    }
    let ghost nv = name@;
    let defs: Vec<(String, String)> = Vec::new();
    let nodes = vec![VNode::Text(name)];
    assert(defs.deep_view() =~= Seq::<DefV>::empty());
    assert(nodes.deep_view() =~= seq![VNodeV::Text(nv)]);
    Some((ne, defs, nodes))
}

fn append_defs(acc: &mut Vec<(String, String)>, more: Vec<(String, String)>)
    ensures
        final(acc).deep_view() == old(acc).deep_view() + more.deep_view(),
{
    let mut m = more;
    let ghost a = acc.deep_view();
    let ghost b = m.deep_view();
    acc.append(&mut m);
    assert(acc.deep_view() =~= a + b);
}

fn append_nodes(acc: &mut Vec<VNode>, more: Vec<VNode>)
    ensures
        final(acc).deep_view() == old(acc).deep_view() + more.deep_view(),
{
    let mut m = more;
    let ghost a = acc.deep_view();
    let ghost b = m.deep_view();
    acc.append(&mut m);
    assert(acc.deep_view() =~= a + b);
}

/// Attributes from `k`.
fn attributes_at(ts: &[Tok], k: usize) -> (r: PartsExec)
    requires
        k <= ts@.len(),
    ensures
        parts_view(r) == attributes(ts@, k as int),
        k <= r.0 <= ts@.len(),
{
    let mut defs: Vec<(String, String)> = Vec::new();
    let mut nodes: Vec<VNode> = Vec::new();
    let mut p = k;
    assert(defs.deep_view() + attributes(ts@, k as int).1 =~= attributes(ts@, k as int).1);
    assert(nodes.deep_view() + attributes(ts@, k as int).2 =~= attributes(ts@, k as int).2);
    loop
        invariant
            k <= p <= ts@.len(),
            attributes(ts@, k as int) == (
                attributes(ts@, p as int).0,
                defs.deep_view() + attributes(ts@, p as int).1,
                nodes.deep_view() + attributes(ts@, p as int).2,
            ),
        ensures
            k <= p <= ts@.len(),
            attributes(ts@, k as int) == (p as int, defs.deep_view(), nodes.deep_view()),
        decreases ts@.len() - p,
    {
        let ghost d0 = defs.deep_view();
        let ghost n0 = nodes.deep_view();
        match attribute_at(ts, p) {
            Some((e, d, n)) => {
                let ghost dv = d.deep_view();
                let ghost nv = n.deep_view();
                append_defs(&mut defs, d);
                append_nodes(&mut nodes, n);
                proof {
                    let rest = attributes(ts@, e as int);
                    assert(d0 + (dv + rest.1) =~= (d0 + dv) + rest.1);
                    assert(n0 + (nv + rest.2) =~= (n0 + nv) + rest.2);
                }
                p = e;
            },
            None => {
                assert(d0 + Seq::<DefV>::empty() =~= d0);
                assert(n0 + Seq::<VNodeV>::empty() =~= n0);
                break;
            },
        }
    }
    (p, defs, nodes)
}

/// The nodes of a tag with text `head` and `tail` around its attributes.
fn tag_nodes_of(head: String, attrs: Vec<VNode>, tail: &str) -> (r: Vec<VNode>)
    ensures
        r.deep_view() == tag_nodes(head@, attrs.deep_view(), tail@),
{
    if attrs.len() == 0 {
        let mut h = head;
        append_str(&mut h, tail);
        let ghost hv = h@;
        let r = vec![VNode::Text(h)];
        assert(r.deep_view() =~= seq![VNodeV::Text(hv)]);
        r
    } else {
        let ghost hv = head@;
        let mut r = vec![VNode::Text(head)];
        assert(r.deep_view() =~= seq![VNodeV::Text(hv)]);
        append_nodes(&mut r, attrs);
        let t = vec![VNode::Text(tail.to_owned())];
        assert(t.deep_view() =~= seq![VNodeV::Text(tail@)]);
        append_nodes(&mut r, t);
        r
    }
}

fn lt_name(name: &str) -> (r: String)
    ensures
        r@ == seq!['<'] + name@,
{
    let mut h = String::new();
    push_char(&mut h, '<');
    append_str(&mut h, name);
    h
}

/// `<name attrs>` at `k`.
fn open_tag_at(ts: &[Tok], k: usize) -> (r: Option<PartsExec>)
    requires
        k <= ts@.len(),
    ensures
        opt_parts(r) == open_tag(ts@, k as int),
        r matches Some((e, _, _)) ==> k < e <= ts@.len(),
{
    let _len = ts.len();
    if !is_punct(ts, k, '<') {
        return None;
    }
    match tag_name_at(ts, k + 1) {
        None => None,
        Some((te, name)) => {
            let (ae, d, attrs) = attributes_at(ts, te);
            if is_punct(ts, ae, '>') {
                proof {
                    reveal_strlit(">");
                    assert(">"@ =~= seq!['>']);
                }
                Some((ae + 1, d, tag_nodes_of(lt_name(name.as_str()), attrs, ">")))
            } else {
                None
            }
        },
    }
}

/// `</name>` at `k`.
fn close_tag_at(ts: &[Tok], k: usize) -> (r: Option<PartsExec>)
    requires
        k <= ts@.len(),
    ensures
        opt_parts(r) == close_tag(ts@, k as int),
        r matches Some((e, _, _)) ==> k < e <= ts@.len(),
{
    let _len = ts.len();
    if !(is_punct(ts, k, '<') && is_punct(ts, k + 1, '/')) {
        return None;
    }
    match tag_name_at(ts, k + 2) {
        Some((te, name)) => {
            if is_punct(ts, te, '>') {
                let mut t = String::new();
                push_char(&mut t, '<');
                push_char(&mut t, '/');
                append_str(&mut t, name.as_str());
                push_char(&mut t, '>');
                let ghost tv = t@;
                assert(tv =~= seq!['<', '/'] + name@ + seq!['>']);
                let defs: Vec<(String, String)> = Vec::new();
                let nodes = vec![VNode::Text(t)];
                assert(defs.deep_view() =~= Seq::<DefV>::empty());
                assert(nodes.deep_view() =~= seq![VNodeV::Text(tv)]);
                Some((te + 1, defs, nodes))
            } else {
                None
            }
        },
        None => None,
    }
}

/// `<name attrs/>` at `k`.
fn self_close_tag_at(ts: &[Tok], k: usize) -> (r: Option<PartsExec>)
    requires
        k <= ts@.len(),
    ensures
        opt_parts(r) == self_close_tag(ts@, k as int),
        r matches Some((e, _, _)) ==> k < e <= ts@.len(),
{
    let _len = ts.len();
    if !is_punct(ts, k, '<') {
        return None;
    }
    match tag_name_at(ts, k + 1) {
        None => None,
        Some((te, name)) => {
            let (ae, d, attrs) = attributes_at(ts, te);
            if is_punct(ts, ae, '/') && is_punct(ts, ae + 1, '>') {
                proof {
                    reveal_strlit("/>");
                    assert("/>"@ =~= seq!['/', '>']);
                }
                Some((ae + 2, d, tag_nodes_of(lt_name(name.as_str()), attrs, "/>")))
            } else {
                None
            }
        },
    }
}

/// Whether `s` reads `w` (lowercase ASCII) in any case of its letters.
fn caseless_word(s: &str, w: &str) -> (r: bool)
    requires
        forall|j: int| 0 <= j < w@.len() ==> 'a' <= #[trigger] w@[j] <= 'z',
    ensures
        r == caseless_eq(s@, w@),
{
    let x = chars_of(s);
    let y = chars_of(w);
    if x.len() != y.len() {
        return false;
    }
    let mut j: usize = 0;
    while j < x.len()
        invariant
            x@ == s@,
            y@ == w@,
            x@.len() == y@.len(),
            j <= x@.len(),
            forall|m: int| 0 <= m < y@.len() ==> 'a' <= #[trigger] y@[m] <= 'z',
            forall|m: int| 0 <= m < j ==> caseless(#[trigger] x@[m], y@[m]),
        decreases x@.len() - j,
    {
        if !is_caseless(x[j], y[j]) {
            return false;
        }
        j = j + 1;
    }
    true
}

fn is_word(ts: &[Tok], k: usize, w: &str) -> (r: bool)
    requires
        forall|j: int| 0 <= j < w@.len() ==> 'a' <= #[trigger] w@[j] <= 'z',
    ensures
        r == word_at(ts@, k as int, w@),
{
    if k < ts.len() {
        match &ts[k] {
            Tok::Ident(s) => caseless_word(s.as_str(), w),
            _ => false,
        }
    } else {
        false
    }
}

/// `<!DOCTYPE html>` at `k`.
fn doctype_at(ts: &[Tok], k: usize) -> (r: Option<PartsExec>)
    requires
        k <= ts@.len(),
    ensures
        opt_parts(r) == doctype(ts@, k as int),
        r matches Some((e, _, _)) ==> k < e <= ts@.len(),
{
    let _len = ts.len();
    proof {
        reveal_strlit("doctype");
        reveal_strlit("html");
    }
    if is_punct(ts, k, '<') && is_punct(ts, k + 1, '!') && is_word(ts, k + 2, "doctype")
        && is_word(ts, k + 3, "html") && is_punct(ts, k + 4, '>') {
        let mut t = String::new();
        push_char(&mut t, '<');
        push_char(&mut t, '!');
        append_str(&mut t, tok_string(&ts[k + 2]).as_str());
        push_char(&mut t, ' ');
        append_str(&mut t, tok_string(&ts[k + 3]).as_str());
        push_char(&mut t, '>');
        let ghost tv = t@;
        assert(tv =~= seq!['<', '!'] + tok_text(ts@[k + 2]) + seq![' '] + tok_text(ts@[k + 3])
            + seq!['>']);
        let defs: Vec<(String, String)> = Vec::new();
        let nodes = vec![VNode::Text(t)];
        assert(defs.deep_view() =~= Seq::<DefV>::empty());
        assert(nodes.deep_view() =~= seq![VNodeV::Text(tv)]);
        Some((k + 5, defs, nodes))
    } else {
        None
    }
}

/// Parts with bindings `d` and nodes `n` put in front.
pub open spec fn parts_after(d: Seq<DefV>, n: Seq<VNodeV>, r: Option<Parts>) -> Option<Parts> {
    match r {
        Some((e, d2, n2)) => Some((e, d + d2, n + n2)),
        None => None,
    }
}

/// `<!-- ... -->` at `k`.
fn comment_at(ts: &[Tok], k: usize) -> (r: Option<PartsExec>)
    requires
        k <= ts@.len(),
    ensures
        opt_parts(r) == html_comment(ts@, k as int),
        r matches Some((e, _, _)) ==> k < e <= ts@.len(),
{
    let _len = ts.len();
    if !(is_punct(ts, k, '<') && is_punct(ts, k + 1, '!') && is_punct(ts, k + 2, '-') && is_punct(
        ts,
        k + 3,
        '-',
    )) {
        return None;
    }
    let mut defs: Vec<(String, String)> = Vec::new();
    let mut nodes = vec![VNode::Text("<!--".to_owned())];
    proof {
        reveal_strlit("<!--");
        assert("<!--"@ =~= seq!['<', '!', '-', '-']);
    }
    assert(nodes.deep_view() =~= seq![VNodeV::Text(seq!['<', '!', '-', '-'])]);
    let mut p = k + 4;
    assert(parts_after(defs.deep_view(), nodes.deep_view(), comment_body(ts@, p as int))
        == html_comment(ts@, k as int)) by {
        match comment_body(ts@, p as int) {
            Some((e, d, n)) => {
                assert(Seq::<DefV>::empty() + d =~= d);
            },
            None => {},
        }
    }
    loop
        invariant
            k + 4 <= p <= ts@.len(),
            html_comment(ts@, k as int) == parts_after(
                defs.deep_view(),
                nodes.deep_view(),
                comment_body(ts@, p as int),
            ),
        decreases ts@.len() - p,
    {
        if p >= ts.len() {
            return None;
        }
        let ghost d0 = defs.deep_view();
        let ghost n0 = nodes.deep_view();
        if is_punct(ts, p, '-') && is_punct(ts, p + 1, '-') && is_punct(ts, p + 2, '>') {
            nodes.push(VNode::Text("-->".to_owned()));
            proof {
                reveal_strlit("-->");
                assert("-->"@ =~= seq!['-', '-', '>']);
                assert(nodes.deep_view() =~= n0 + seq![VNodeV::Text(seq!['-', '-', '>'])]);
                assert(d0 + Seq::<DefV>::empty() =~= d0);
            }
            return Some((p + 3, defs, nodes));
        }
        let ghost (dd, nn) = match expr_at(ts@, p as int) {
            Some((_, def, x)) => (seq![def], seq![VNodeV::Expr(x)]),
            None => (Seq::<DefV>::empty(), seq![VNodeV::Text(tok_text(ts@[p as int]))]),
        };
        match expr_def_at(ts, p) {
            Some((_, d, x)) => {
                defs.push(d);
                nodes.push(VNode::Expr(x));
            },
            None => {
                nodes.push(VNode::Text(tok_string(&ts[p])));
            },
        }
        proof {
            assert(defs.deep_view() =~= d0 + dd);
            assert(nodes.deep_view() =~= n0 + nn);
            match comment_body(ts@, p + 1) {
                Some((e, d2, n2)) => {
                    assert(d0 + (dd + d2) =~= (d0 + dd) + d2);
                    assert(n0 + (nn + n2) =~= (n0 + nn) + n2);
                },
                None => {},
            }
        }
        p = p + 1;
    }
}

/// A tag at `k`, where a token is.
fn tag_at(ts: &[Tok], k: usize) -> (r: PartsExec)
    requires
        k < ts@.len(),
    ensures
        parts_view(r) == tag(ts@, k as int),
        k < r.0 <= ts@.len(),
{
    if let Some(x) = open_tag_at(ts, k) {
        return x;
    }
    if let Some(x) = close_tag_at(ts, k) {
        return x;
    }
    if let Some(x) = self_close_tag_at(ts, k) {
        return x;
    }
    if let Some(x) = doctype_at(ts, k) {
        return x;
    }
    if let Some(x) = comment_at(ts, k) {
        return x;
    }
    let defs: Vec<(String, String)> = Vec::new();
    let t = tok_string(&ts[k]);
    let ghost tv = t@;
    let nodes = vec![VNode::Text(t)];
    assert(defs.deep_view() =~= Seq::<DefV>::empty());
    assert(nodes.deep_view() =~= seq![VNodeV::Text(tv)]);
    (k + 1, defs, nodes)
}

/// One item at `k`, where a token is.
fn item_at(ts: &[Tok], k: usize) -> (r: PartsExec)
    requires
        k < ts@.len(),
    ensures
        parts_view(r) == item(ts@, k as int),
        k < r.0 <= ts@.len(),
    decreases ts@, ts@.len() - k, 0int,
{
    if let Some((e, d, x)) = expr_def_at(ts, k) {
        let ghost dv = d.deep_view();
        let ghost xv = x@;
        let defs = vec![d];
        let nodes = vec![VNode::Expr(x)];
        assert(defs.deep_view() =~= seq![dv]);
        assert(nodes.deep_view() =~= seq![VNodeV::Expr(xv)]);
        return (e, defs, nodes);
    }
    match &ts[k] {
        Tok::Group { delim, inner, .. } => {
            if *delim == Delim::Paren || *delim == Delim::Bracket {
                proof {
                    assert(decreases_to!(ts@ => ts@[k as int]));
                }
                let (d, n) = template_at(inner.as_slice(), 0);
                let (open, close) = if *delim == Delim::Paren {
                    ('(', ')')
                } else {
                    ('[', ']')
                };
                let mut o = String::new();
                push_char(&mut o, open);
                let mut c = String::new();
                push_char(&mut c, close);
                assert(o@ =~= seq![open]);
                assert(c@ =~= seq![close]);
                let mut nodes = vec![VNode::Text(o)];
                assert(nodes.deep_view() =~= seq![VNodeV::Text(seq![open])]);
                append_nodes(&mut nodes, n);
                let tail = vec![VNode::Text(c)];
                assert(tail.deep_view() =~= seq![VNodeV::Text(seq![close])]);
                append_nodes(&mut nodes, tail);
                return (k + 1, d, nodes);
            }
        },
        _ => {},
    }
    match text_at(ts, k) {
        Some((e, t)) => {
            let ghost tv = t@;
            let defs: Vec<(String, String)> = Vec::new();
            let nodes = vec![VNode::Text(t)];
            assert(defs.deep_view() =~= Seq::<DefV>::empty());
            assert(nodes.deep_view() =~= seq![VNodeV::Text(tv)]);
            (e, defs, nodes)
        },
        None => tag_at(ts, k),
    }
}

/// The template over `ts` from `k`: its bindings and nodes.
fn template_at(ts: &[Tok], k: usize) -> (r: (Vec<(String, String)>, Vec<VNode>))
    requires
        k <= ts@.len(),
    ensures
        (r.0.deep_view(), r.1.deep_view()) == template(ts@, k as int),
    decreases ts@, ts@.len() - k, 1int,
{
    let mut defs: Vec<(String, String)> = Vec::new();
    let mut nodes: Vec<VNode> = Vec::new();
    let mut p = k;
    assert(defs.deep_view() + template(ts@, k as int).0 =~= template(ts@, k as int).0);
    assert(nodes.deep_view() + template(ts@, k as int).1 =~= template(ts@, k as int).1);
    while p < ts.len()
        invariant
            k <= p <= ts@.len(),
            template(ts@, k as int) == (
                defs.deep_view() + template(ts@, p as int).0,
                nodes.deep_view() + template(ts@, p as int).1,
            ),
        decreases ts@.len() - p,
    {
        let ghost d0 = defs.deep_view();
        let ghost n0 = nodes.deep_view();
        let (e, d, n) = item_at(ts, p);
        let ghost dv = d.deep_view();
        let ghost nv = n.deep_view();
        append_defs(&mut defs, d);
        append_nodes(&mut nodes, n);
        proof {
            let rest = template(ts@, e as int);
            assert(d0 + (dv + rest.0) =~= (d0 + dv) + rest.0);
            assert(n0 + (nv + rest.1) =~= (n0 + nv) + rest.1);
        }
        p = e;
    }
    assert(defs.deep_view() + Seq::<DefV>::empty() =~= defs.deep_view());
    assert(nodes.deep_view() + Seq::<VNodeV>::empty() =~= nodes.deep_view());
    (defs, nodes)
}

/// The bytes of the UTF-8 encoding of `t`.
fn byte_len(t: &str) -> (r: usize)
    ensures
        r == encode_utf8(t@).len(),
{
    t.as_bytes().len()
}

/// The body and text size of the nodes.
fn assemble_nodes(nodes: Vec<VNode>) -> (r: (Vec<ViewPiece>, usize))
    ensures
        (r.0.deep_view(), r.1 as nat) == assemble(nodes.deep_view()),
{
    let ghost all = nodes.deep_view();
    let mut rest = nodes;
    let mut body: Vec<ViewPiece> = Vec::new();
    let mut buf = String::new();
    let mut first = true;
    let mut size: usize = 0;
    let ghost start = Assembly { body: Seq::empty(), buf: Seq::empty(), first: true, size: 0 };
    assert(body.deep_view() =~= Seq::<ViewPieceV>::empty());
    assert(all.subrange(0, all.len() as int) =~= all);
    assert(buf@ =~= Seq::<char>::empty());
    assert(Assembly { body: body.deep_view(), buf: buf@, first, size: size as nat } == start);
    let ghost mut n: int = 0;
    while rest.len() > 0
        invariant
            0 <= n <= all.len(),
            rest.deep_view() == all.subrange(n, all.len() as int),
            assemble_from(start, all) == assemble_from(
                Assembly { body: body.deep_view(), buf: buf@, first, size: size as nat },
                all.subrange(n, all.len() as int),
            ),
        decreases rest.len(),
    {
        let ghost before = rest.deep_view();
        let ghost st = Assembly { body: body.deep_view(), buf: buf@, first, size: size as nat };
        let node = rest.remove(0);
        let ghost nodev = node.deep_view();
        proof {
            assert(before[0] == node.deep_view());
            assert(rest.deep_view() =~= before.drop_first());
            assert(before.drop_first() =~= all.subrange(n + 1, all.len() as int));
        }
        match node {
            VNode::Expr(x) => {
                if char_count(buf.as_str()) > 0 {
                    push_char(&mut buf, ' ');
                    let ghost bv = buf@;
                    assert(bv =~= st.buf + seq![' ']);
                    body.push(ViewPiece::Write(buf));
                    proof {
                        assert(body.deep_view() =~= st.body.push(ViewPieceV::Write(bv)));
                    }
                    buf = String::new();
                }
                let ghost b1 = body.deep_view();
                let ghost xv = x@;
                body.push(ViewPiece::Render(x));
                assert(body.deep_view() =~= b1.push(ViewPieceV::Render(xv)));
                assert(buf@ =~= Seq::<char>::empty());
                assert(body.deep_view() =~= (if st.buf.len() > 0 {
                    st.body.push(ViewPieceV::Write(st.buf + seq![' ']))
                } else {
                    st.body
                }).push(ViewPieceV::Render(xv)));
            },
            VNode::Text(t) => {
                if !first {
                    push_char(&mut buf, ' ');
                }
                append_str(&mut buf, t.as_str());
                assert(buf@ =~= (if st.first {
                    st.buf + t@
                } else {
                    st.buf + seq![' '] + t@
                }));
                let b = byte_len(t.as_str());
                size = if size > usize::MAX - b {
                    usize::MAX
                } else {
                    size + b
                };
                first = false;
            },
        }
        proof {
            let seg = all.subrange(n, all.len() as int);
            assert(seg[0] == nodev);
            assert(seg.drop_first() =~= all.subrange(n + 1, all.len() as int));
            let next = assemble_step(st, nodev);
            assert(body.deep_view() =~= next.body);
            assert(buf@ =~= next.buf);
            assert(Assembly { body: body.deep_view(), buf: buf@, first, size: size as nat } == next);
            n = n + 1;
        }
    }
    assert(all.subrange(n, all.len() as int) =~= Seq::<VNodeV>::empty());
    if char_count(buf.as_str()) > 0 {
        let ghost bv = buf@;
        let ghost b0 = body.deep_view();
        body.push(ViewPiece::Write(buf));
        assert(body.deep_view() =~= b0.push(ViewPieceV::Write(bv)));
    }
    (body, size)
}

/// Compiles the tokens given to `v!`: the values bound by its `{ ... }`
/// groups, the body that writes its text and renders those values, and the
/// number of bytes of text (at most `usize::MAX`).
pub fn compile(tokens: &Vec<Tok>) -> (r: ViewCode)
    ensures
        r.view_code() == (ViewCodeV {
            text_size: assemble(template(tokens@, 0).1).1,
            defs: template(tokens@, 0).0,
            body: assemble(template(tokens@, 0).1).0,
        }),
{
    let (defs, nodes) = template_at(tokens.as_slice(), 0);
    let (body, size) = assemble_nodes(nodes);
    ViewCode { text_size: size, defs, body }
}

} // verus!
