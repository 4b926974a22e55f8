//! Templates of the `v_file!` macro: text and `@{ ... }` blocks. Each block
//! becomes a value bound once (`_exp` and the number of bytes that follow
//! the block) and rendered where it stands; the text around the blocks is
//! written as it is, and its length counted.
use vstd::prelude::*;
use vstd::utf8::encode_utf8;
use crate::classes::{Class, char_at, has_class, in_class, is_char_at, lemma_run_end, run, run_end};
use crate::diagnostics::{decimal, push_decimal};
use crate::lexer::{skip_ws, ws};
use crate::outcome::{Out, PErr};
use crate::rust_code::code_block;
use crate::syntax::{block_error, lex_check, lex_error, syn_block_error};
use crate::text::{chars_of, push_char, string_between, suffix_bytes};

verus! {

/// One piece of the rendering function's body.
#[derive(Debug)]
pub enum ViewPiece {
    /// `write!(out, "{}", text)?;`
    Write(String),
    /// `::rshtml::Exp(&(name)).render(out)?;`
    Render(String),
}

pub enum ViewPieceV {
    Write(Seq<char>),
    Render(Seq<char>),
}

impl DeepView for ViewPiece {
    type V = ViewPieceV;

    open spec fn deep_view(&self) -> ViewPieceV {
        match self {
            ViewPiece::Write(t) => ViewPieceV::Write(t@),
            ViewPiece::Render(n) => ViewPieceV::Render(n@),
        }
    }
}

/// The code of a view: the length of its text, the values it binds (name
/// and code of a block) and the body that renders it.
pub struct ViewCode {
    pub text_size: usize,
    pub defs: Vec<(String, String)>,
    pub body: Vec<ViewPiece>,
}

pub struct ViewCodeV {
    pub text_size: nat,
    pub defs: Seq<(Seq<char>, Seq<char>)>,
    pub body: Seq<ViewPieceV>,
}

impl ViewCode {
    pub open spec fn view_code(&self) -> ViewCodeV {
        ViewCodeV {
            text_size: self.text_size as nat,
            defs: self.defs.deep_view(),
            body: self.body.deep_view(),
        }
    }
}

/// Why a view does not compile.
#[derive(Clone, Copy, PartialEq, Eq, Structural, Debug)]
pub enum ViewError {
    /// There is neither text nor a block.
    NoContent,
    /// A block is not closed.
    UnclosedBlock,
    /// A block is not a block of Rust and does not even lex.
    LexError,
    /// Something is left after the content.
    NotAtEnd,
}

/// The message of a view error, as `compile_error!` shows it.
pub open spec fn view_error_text(e: ViewError) -> Seq<char> {
    match e {
        ViewError::NoContent => "compile error: text or rust block"@,
        ViewError::UnclosedBlock => "compile error: rust block: expected `}`"@,
        ViewError::LexError => "compile error: rust block: Lex Error"@,
        ViewError::NotAtEnd => "compile error: end of file"@,
    }
}

/// One piece of view text at `k`: a run of characters other than `@`, or an
/// `@` that does not open a block.
pub open spec fn view_text_piece(s: Seq<char>, k: int) -> Option<(int, Seq<char>)> {
    if 0 <= k < s.len() && s[k] != '@' {
        Some((run_end(s, k, Class::NotAt), s.subrange(k, run_end(s, k, Class::NotAt))))
    } else if char_at(s, k, '@') && !char_at(s, ws(s, k + 1), '{') {
        Some((k + 1, seq!['@']))
    } else {
        None
    }
}

/// The view text from `k`: its end and its characters.
pub open spec fn view_text_from(s: Seq<char>, k: int) -> (int, Seq<char>)
    decreases s.len() - k,
{
    match view_text_piece(s, k) {
        Some((k2, p)) if k < k2 <= s.len() => {
            let (e, t) = view_text_from(s, k2);
            (e, p + t)
        },
        _ => (k, Seq::empty()),
    }
}

/// The name of the value a block ending at `e` binds: `_exp` and the number
/// of bytes that follow it.
pub open spec fn exp_name(s: Seq<char>, e: int) -> Seq<char> {
    "_exp"@ + decimal(encode_utf8(s.subrange(e, s.len() as int)).len())
}

/// A block `@{ ... }` at `k`: its end, the name it binds and its code (the
/// text after `@`); `None` when there is no block.
pub open spec fn view_block(s: Seq<char>, k: int) -> Result<
    Option<(int, Seq<char>, Seq<char>)>,
    ViewError,
> {
    if !char_at(s, k, '@') {
        Ok(None)
    } else {
        match code_block(s, ws(s, k + 1)) {
            Out::Back => Ok(None),
            Out::Cut(_, _) => Err(ViewError::UnclosedBlock),
            Out::Done(e, _) => {
                let t = s.subrange(k + 1, e);
                if syn_block_error(t) is None || lex_error(t) is None {
                    Ok(Some((e, exp_name(s, e), t)))
                } else {
                    Err(ViewError::LexError)
                }
            },
        }
    }
}

/// The view from `k`: blocks and text, as many as follow, and where they end.
pub open spec fn view_rest(s: Seq<char>, k: int) -> Result<(int, ViewCodeV), ViewError>
    decreases s.len() - k,
{
    if k < 0 || k > s.len() {
        Err(ViewError::NotAtEnd)
    } else {
        match view_block(s, k) {
            Err(x) => Err(x),
            Ok(Some((e, name, code))) => if k < e <= s.len() {
                match view_rest(s, e) {
                    Ok((end, c)) => Ok(
                        (
                            end,
                            ViewCodeV {
                                text_size: c.text_size,
                                defs: seq![(name, code)] + c.defs,
                                body: seq![ViewPieceV::Render(name)] + c.body,
                            },
                        ),
                    ),
                    Err(x) => Err(x),
                }
            } else {
                Err(ViewError::NotAtEnd)
            },
            Ok(None) => {
                let (e, t) = view_text_from(s, k);
                if k < e <= s.len() {
                    match view_rest(s, e) {
                        Ok((end, c)) => Ok(
                            (
                                end,
                                ViewCodeV {
                                    text_size: t.len() + c.text_size,
                                    defs: c.defs,
                                    body: seq![ViewPieceV::Write(t)] + c.body,
                                },
                            ),
                        ),
                        Err(x) => Err(x),
                    }
                } else {
                    Ok((k, ViewCodeV { text_size: 0, defs: Seq::empty(), body: Seq::empty() }))
                }
            },
        }
    }
}

/// A whole view: at least one piece, and nothing after the content.
pub open spec fn view_template(s: Seq<char>) -> Result<ViewCodeV, ViewError> {
    if view_block(s, 0) == Ok::<Option<(int, Seq<char>, Seq<char>)>, ViewError>(None)
        && view_text_from(s, 0).0 <= 0 {
        Err(ViewError::NoContent)
    } else {
        match view_rest(s, 0) {
            Ok((end, c)) => if end == s.len() {
                Ok(c)
            } else {
                Err(ViewError::NotAtEnd)
            },
            Err(x) => Err(x),
        }
    }
}

proof fn lemma_view_text_from(s: Seq<char>, k: int)
    requires
        0 <= k <= s.len(),
    ensures
        k <= view_text_from(s, k).0 <= s.len(),
        view_text_from(s, k).1.len() <= view_text_from(s, k).0 - k,
    decreases s.len() - k,
{
    match view_text_piece(s, k) {
        Some((k2, p)) => if k < k2 <= s.len() {
            lemma_view_text_from(s, k2);
            if 0 <= k < s.len() && s[k] != '@' {
                lemma_run_end(s, k, Class::NotAt);
            }
        },
        None => {},
    }
}

/// A view without `@` is written as it is: one write of all its text, no
/// value bound, and its length counted; an empty view has no content.
pub proof fn plain_view_is_written(s: Seq<char>)
    requires
        forall|i: int| 0 <= i < s.len() ==> s[i] != '@',
    ensures
        s.len() > 0 ==> view_template(s) == Ok::<ViewCodeV, ViewError>(
            ViewCodeV { text_size: s.len(), defs: Seq::empty(), body: seq![ViewPieceV::Write(s)] },
        ),
        s.len() == 0 ==> view_template(s) == Err::<ViewCodeV, ViewError>(ViewError::NoContent),
{
    let n = s.len() as int;
    assert(view_block(s, n) == Ok::<Option<(int, Seq<char>, Seq<char>)>, ViewError>(None));
    assert(view_text_piece(s, n) is None);
    assert(view_text_from(s, n) == (n, Seq::<char>::empty()));
    assert(view_rest(s, n) == Ok::<(int, ViewCodeV), ViewError>(
        (n, ViewCodeV { text_size: 0, defs: Seq::empty(), body: Seq::empty() }),
    ));
    if n > 0 {
        lemma_run_end(s, 0, Class::NotAt);
        let e = run_end(s, 0, Class::NotAt);
        if e < n {
            assert(in_class(s[e], Class::NotAt));
        }
        assert(view_block(s, 0) == Ok::<Option<(int, Seq<char>, Seq<char>)>, ViewError>(None));
        assert(view_text_piece(s, 0) == Some((n, s.subrange(0, n))));
        assert(s.subrange(0, n) =~= s);
        assert(s + Seq::<char>::empty() =~= s);
        assert(view_text_from(s, 0) == (n, s));
        let c = ViewCodeV { text_size: 0, defs: Seq::<(Seq<char>, Seq<char>)>::empty(), body: Seq::<ViewPieceV>::empty() };
        assert(seq![ViewPieceV::Write(s)] + c.body =~= seq![ViewPieceV::Write(s)]);
    } else {
        assert(view_text_piece(s, 0) is None);
    }
}

/// No `@` of `s` opens a block: none is followed, after whitespace, by `{`.
pub open spec fn opens_no_block(s: Seq<char>) -> bool {
    forall|i: int| 0 <= i < s.len() && s[i] == '@' ==> !char_at(s, ws(s, i + 1), '{')
}

proof fn lemma_text_to_end(s: Seq<char>, k: int)
    requires
        opens_no_block(s),
        0 <= k <= s.len(),
    ensures
        view_text_from(s, k) == (s.len() as int, s.subrange(k, s.len() as int)),
        view_block(s, k) == Ok::<Option<(int, Seq<char>, Seq<char>)>, ViewError>(None),
    decreases s.len() - k,
{
    let n = s.len() as int;
    if k == n {
        assert(view_text_piece(s, k) is None);
        assert(s.subrange(k, n) =~= Seq::<char>::empty());
    } else if s[k] != '@' {
        lemma_run_end(s, k, Class::NotAt);
        let e = run_end(s, k, Class::NotAt);
        assert(k < e);
        lemma_text_to_end(s, e);
        assert(s.subrange(k, e) + s.subrange(e, n) =~= s.subrange(k, n));
    } else {
        assert(!char_at(s, ws(s, k + 1), '{'));
        lemma_text_to_end(s, k + 1);
        assert(seq!['@'] + s.subrange(k + 1, n) =~= s.subrange(k, n));
    }
}

/// A view whose `@`s open no block is written as it is: one write holding
/// every character of the source (`@`s included), no value bound, and the
/// number of characters counted; an empty one has no content.
pub proof fn view_without_blocks_is_written(s: Seq<char>)
    requires
        opens_no_block(s),
    ensures
        s.len() > 0 ==> view_template(s) == Ok::<ViewCodeV, ViewError>(
            ViewCodeV { text_size: s.len(), defs: Seq::empty(), body: seq![ViewPieceV::Write(s)] },
        ),
        s.len() == 0 ==> view_template(s) == Err::<ViewCodeV, ViewError>(ViewError::NoContent),
{
    let n = s.len() as int;
    lemma_text_to_end(s, 0);
    lemma_text_to_end(s, n);
    assert(s.subrange(0, n) =~= s);
    assert(view_rest(s, n) == Ok::<(int, ViewCodeV), ViewError>(
        (n, ViewCodeV { text_size: 0, defs: Seq::empty(), body: Seq::empty() }),
    ));
    if n > 0 {
        let c = ViewCodeV { text_size: 0, defs: Seq::<(Seq<char>, Seq<char>)>::empty(), body: Seq::<ViewPieceV>::empty() };
        assert(seq![ViewPieceV::Write(s)] + c.body =~= seq![ViewPieceV::Write(s)]);
    }
}

/// The view text at `k`: its end, its characters and their number.
fn view_text(s: &[char], k: usize) -> (r: (usize, String, usize))
    requires
        k <= s@.len(),
    ensures
        (r.0 as int, r.1@) == view_text_from(s@, k as int),
        r.2 == r.1@.len(),
        r.2 <= r.0 - k,
        k <= r.0 <= s@.len(),
{
    let mut out = String::new();
    let mut n: usize = 0;
    let mut j = k;
    proof {
        lemma_view_text_from(s@, k as int);
    }
    loop
        invariant
            k <= j <= s@.len(),
            s@.len() == s.len(),
            n == out@.len(),
            n <= j - k,
            view_text_from(s@, k as int) == (
                view_text_from(s@, j as int).0,
                out@ + view_text_from(s@, j as int).1,
            ),
        ensures
            k <= j <= s@.len(),
            n == out@.len(),
            n <= j - k,
            view_text_from(s@, k as int) == (
                view_text_from(s@, j as int).0,
                out@ + view_text_from(s@, j as int).1,
            ),
            view_text_piece(s@, j as int) is None,
        decreases s@.len() - j,
    {
        let ghost o = out@;
        if j < s.len() && s[j] != '@' {
            let e = run(s, j, Class::NotAt);
            proof {
                lemma_run_end(s@, j as int, Class::NotAt);
            }
            let mut m = j;
            while m < e
                invariant
                    j <= m <= e <= s@.len(),
                    s@.len() == s.len(),
                    out@ == o + s@.subrange(j as int, m as int),
                    n == out@.len(),
                    n <= m - k,
                    o.len() <= j - k,
                decreases e - m,
            {
                push_char(&mut out, s[m]);
                n = n + 1;
                m = m + 1;
                assert(out@ =~= o + s@.subrange(j as int, m as int));
            }
            proof {
                let t = view_text_from(s@, e as int);
                assert(out@ + t.1 =~= o + (s@.subrange(j as int, e as int) + t.1));
            }
            j = e;
        } else if is_char_at(s, j, '@') && !is_char_at(s, skip_ws(s, j + 1), '{') {
            push_char(&mut out, '@');
            n = n + 1;
            proof {
                let t = view_text_from(s@, j + 1);
                assert(out@ + t.1 =~= o + (seq!['@'] + t.1));
            }
            j = j + 1;
        } else {
            break;
        }
    }
    assert(view_text_from(s@, j as int) == (j as int, Seq::<char>::empty()));
    assert(out@ + Seq::<char>::empty() =~= out@);
    (j, out, n)
}

/// A block `@{ ... }` at `k`, in a text of `total` bytes.
fn view_block_at(s: &[char], k: usize, total: usize) -> (r: Result<
    Option<(usize, String, String)>,
    ViewError,
>)
    requires
        k <= s@.len(),
        total == encode_utf8(s@).len(),
    ensures
        match r {
            Ok(Some((e, name, code))) => view_block(s@, k as int) == Ok::<
                Option<(int, Seq<char>, Seq<char>)>,
                ViewError,
            >(Some((e as int, name@, code@))) && k < e <= s@.len(),
            Ok(None) => view_block(s@, k as int) == Ok::<
                Option<(int, Seq<char>, Seq<char>)>,
                ViewError,
            >(None),
            Err(x) => view_block(s@, k as int) == Err::<
                Option<(int, Seq<char>, Seq<char>)>,
                ViewError,
            >(x),
        },
{
    let _len = s.len();
    if !is_char_at(s, k, '@') {
        return Ok(None);
    }
    match crate::rust_code::block(s, skip_ws(s, k + 1)) {
        Err(PErr::Back) => Ok(None),
        Err(PErr::Cut(_, _)) => Err(ViewError::UnclosedBlock),
        Ok(e) => {
            let t = string_between(s, k + 1, e);
            if block_error(t.as_str()).is_none() || lex_check(t.as_str()).is_none() {
                let mut name = "_exp".to_owned();
                let rest = suffix_bytes(s, e, total);
                push_decimal(&mut name, rest);
                Ok(Some((e, name, t)))
            } else {
                Err(ViewError::LexError)
            }
        },
    }
}

/// The message of a view error.
pub fn view_error_message(e: ViewError) -> (r: String)
    ensures
        r@ == view_error_text(e),
{
    match e {
        ViewError::NoContent => "compile error: text or rust block".to_owned(),
        ViewError::UnclosedBlock => "compile error: rust block: expected `}`".to_owned(),
        ViewError::LexError => "compile error: rust block: Lex Error".to_owned(),
        ViewError::NotAtEnd => "compile error: end of file".to_owned(),
    }
}

/// The view from `k` with `acc` (the pieces so far) put in front.
pub open spec fn view_after(acc: ViewCodeV, r: Result<(int, ViewCodeV), ViewError>) -> Result<
    (int, ViewCodeV),
    ViewError,
> {
    match r {
        Ok((end, c)) => Ok(
            (
                end,
                ViewCodeV {
                    text_size: acc.text_size + c.text_size,
                    defs: acc.defs + c.defs,
                    body: acc.body + c.body,
                },
            ),
        ),
        Err(x) => Err(x),
    }
}

/// Compiles the view `source`: its code, or the error that stops it.
pub fn compile(source: &str) -> (r: Result<ViewCode, ViewError>)
    ensures
        match r {
            Ok(c) => view_template(source@) == Ok::<ViewCodeV, ViewError>(c.view_code()),
            Err(x) => view_template(source@) == Err::<ViewCodeV, ViewError>(x),
        },
{
    let x = chars_of(source);
    let s = x.as_slice();
    let total = source.as_bytes().len();
    let mut defs: Vec<(String, String)> = Vec::new();
    let mut body: Vec<ViewPiece> = Vec::new();
    let mut size: usize = 0;
    let mut p: usize = 0;
    let ghost empty = ViewCodeV { text_size: 0, defs: Seq::empty(), body: Seq::empty() };
    assert(view_rest(s@, 0) == view_after(empty, view_rest(s@, 0))) by {
        match view_rest(s@, 0) {
            Ok((end, c)) => {
                assert(Seq::<(Seq<char>, Seq<char>)>::empty() + c.defs =~= c.defs);
                assert(Seq::<ViewPieceV>::empty() + c.body =~= c.body);
            },
            Err(_) => {},
        }
    }
    loop
        invariant
            p <= s@.len(),
            s@ == source@,
            total == encode_utf8(s@).len(),
            size <= p,
            view_rest(s@, 0) == view_after(
                ViewCodeV { text_size: size as nat, defs: defs.deep_view(), body: body.deep_view() },
                view_rest(s@, p as int),
            ),
            p > 0 ==> !(view_block(s@, 0) == Ok::<Option<(int, Seq<char>, Seq<char>)>, ViewError>(
                None,
            ) && view_text_from(s@, 0).0 <= 0),
        ensures
            p <= s@.len(),
            s@ == source@,
            size <= p,
            view_rest(s@, 0) == view_after(
                ViewCodeV { text_size: size as nat, defs: defs.deep_view(), body: body.deep_view() },
                view_rest(s@, p as int),
            ),
            p > 0 ==> !(view_block(s@, 0) == Ok::<Option<(int, Seq<char>, Seq<char>)>, ViewError>(
                None,
            ) && view_text_from(s@, 0).0 <= 0),
            view_block(s@, p as int) == Ok::<Option<(int, Seq<char>, Seq<char>)>, ViewError>(None),
            view_text_from(s@, p as int).0 == p,
        decreases s@.len() - p,
    {
        let ghost acc = ViewCodeV {
            text_size: size as nat,
            defs: defs.deep_view(),
            body: body.deep_view(),
        };
        match view_block_at(s, p, total) {
            Err(e) => {
                return Err(e);
            },
            Ok(Some((e, name, code))) => {
                let ghost nv = name@;
                let ghost cv = code@;
                let rendered = ViewPiece::Render(name.clone());
                defs.push((name, code));
                body.push(rendered);
                proof {
                    assert(defs.deep_view() =~= acc.defs.push((nv, cv)));
                    assert(body.deep_view() =~= acc.body.push(ViewPieceV::Render(nv)));
                    match view_rest(s@, e as int) {
                        Ok((end, c)) => {
                            assert(acc.defs + (seq![(nv, cv)] + c.defs) =~= acc.defs.push((nv, cv))
                                + c.defs);
                            assert(acc.body + (seq![ViewPieceV::Render(nv)] + c.body)
                                =~= acc.body.push(ViewPieceV::Render(nv)) + c.body);
                        },
                        Err(_) => {},
                    }
                }
                p = e;
                continue;
            },
            Ok(None) => {},
        }
        let (e, t, n) = view_text(s, p);
        if e > p {
            let ghost tv = t@;
            body.push(ViewPiece::Write(t));
            proof {
                assert(body.deep_view() =~= acc.body.push(ViewPieceV::Write(tv)));
                match view_rest(s@, e as int) {
                    Ok((end, c)) => {
                        assert(acc.body + (seq![ViewPieceV::Write(tv)] + c.body)
                            =~= acc.body.push(ViewPieceV::Write(tv)) + c.body);
                    },
                    Err(_) => {},
                }
            }
            size = size + n;
            p = e;
        } else {
            proof {
                assert(acc.defs + Seq::<(Seq<char>, Seq<char>)>::empty() =~= acc.defs);
                assert(acc.body + Seq::<ViewPieceV>::empty() =~= acc.body);
            }
            break;
        }
    }
    assert(view_rest(s@, p as int) == Ok::<(int, ViewCodeV), ViewError>(
        (p as int, ViewCodeV { text_size: 0, defs: Seq::empty(), body: Seq::empty() }),
    ));
    if p == 0 {
        return Err(ViewError::NoContent);
    }
    if p != s.len() {
        return Err(ViewError::NotAtEnd);
    }
    Ok(ViewCode { text_size: size, defs, body })
}

} // verus!
