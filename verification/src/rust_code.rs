//! The extent of a `{ ... }` block of Rust code inside a template: braces
//! are matched, skipping comments, string literals and character literals.
use vstd::prelude::*;
use crate::classes::{Class, at, char_at, in_class, is_char_at, lemma_run_end, run, run_end, starts_at};
use crate::lexer::{lemma_quote_rest, opt_pos, quote_rest, scan_quote_rest};
use crate::outcome::{CtxV, Expect, Out, PErr, cut_at, cut_expect, unit_out};

verus! {

/// `// ...` up to the end of the line.
pub open spec fn line_comment(s: Seq<char>, i: int) -> Option<int> {
    if char_at(s, i, '/') && char_at(s, i + 1, '/') {
        Some(run_end(s, i + 2, Class::LineRest))
    } else {
        None
    }
}

/// `/* ... */`, where comments nest.
pub open spec fn block_comment(s: Seq<char>, i: int) -> Option<int>
    decreases s.len() - i, 0int,
{
    if 0 <= i && char_at(s, i, '/') && char_at(s, i + 1, '*') {
        comment_rest(s, i + 2)
    } else {
        None
    }
}

/// The body of a block comment from `k`, and its `*/`.
pub open spec fn comment_rest(s: Seq<char>, k: int) -> Option<int>
    decreases s.len() - k, 1int,
{
    if k < 0 || k > s.len() {
        None
    } else {
        match block_comment(s, k) {
            Some(k2) if k < k2 <= s.len() => comment_rest(s, k2),
            _ => if k < s.len() && in_class(s[k], Class::CommentText) {
                comment_rest(s, k + 1)
            } else if k < s.len() && !(char_at(s, k, '/') && char_at(s, k + 1, '*')) && !(
            char_at(s, k, '*') && char_at(s, k + 1, '/')) {
                comment_rest(s, k + 1)
            } else if char_at(s, k, '*') && char_at(s, k + 1, '/') {
                Some(k + 2)
            } else {
                None
            },
        }
    }
}

/// A string literal `"..."`.
pub open spec fn string_literal(s: Seq<char>, i: int) -> Option<int> {
    if char_at(s, i, '"') {
        quote_rest(s, i + 1, '"')
    } else {
        None
    }
}

/// A character literal: `'`, an escape or a character other than `"` and
/// `\`, then `'`.
pub open spec fn char_literal(s: Seq<char>, i: int) -> Option<int> {
    if char_at(s, i, '\'') {
        let m = if char_at(s, i + 1, '\\') && i + 2 < s.len() {
            i + 3
        } else if 0 <= i + 1 < s.len() && s[i + 1] != '"' && s[i + 1] != '\\' {
            i + 2
        } else {
            -1
        };
        if m >= 0 && char_at(s, m, '\'') {
            Some(m + 1)
        } else {
            None
        }
    } else {
        None
    }
}

pub proof fn lemma_block_comment(s: Seq<char>, i: int)
    requires
        0 <= i,
    ensures
        block_comment(s, i) matches Some(e) ==> i < e <= s.len(),
    decreases s.len() - i, 0int,
{
    if char_at(s, i, '/') && char_at(s, i + 1, '*') {
        lemma_comment_rest(s, i + 2);
    }
}

pub proof fn lemma_comment_rest(s: Seq<char>, k: int)
    requires
        0 <= k,
    ensures
        comment_rest(s, k) matches Some(e) ==> k < e <= s.len(),
    decreases s.len() - k, 1int,
{
    if k <= s.len() {
        match block_comment(s, k) {
            Some(k2) if k < k2 <= s.len() => lemma_comment_rest(s, k2),
            _ => if k < s.len() && in_class(s[k], Class::CommentText) {
                lemma_comment_rest(s, k + 1);
            } else if k < s.len() && !(char_at(s, k, '/') && char_at(s, k + 1, '*')) && !(
            char_at(s, k, '*') && char_at(s, k + 1, '/')) {
                lemma_comment_rest(s, k + 1);
            },
        }
    }
}

pub fn scan_line_comment(s: &[char], i: usize) -> (r: Option<usize>)
    requires
        i <= s@.len(),
    ensures
        opt_pos(r) == line_comment(s@, i as int),
        r matches Some(e) ==> i < e <= s@.len(),
{
    let _len = s.len();
    if is_char_at(s, i, '/') && is_char_at(s, i + 1, '/') {
        proof { lemma_run_end(s@, i + 2, Class::LineRest); }
        Some(run(s, i + 2, Class::LineRest))
    } else {
        None
    }
}

pub fn scan_block_comment(s: &[char], i: usize) -> (r: Option<usize>)
    requires
        i <= s@.len(),
    ensures
        opt_pos(r) == block_comment(s@, i as int),
        r matches Some(e) ==> i < e <= s@.len(),
    decreases s@.len() - i, 0int,
{
    proof { lemma_block_comment(s@, i as int); }
    let _len = s.len();
    if is_char_at(s, i, '/') && is_char_at(s, i + 1, '*') {
        scan_comment_rest(s, i + 2)
    } else {
        None
    }
}

fn scan_comment_rest(s: &[char], k: usize) -> (r: Option<usize>)
    requires
        k <= s@.len(),
    ensures
        opt_pos(r) == comment_rest(s@, k as int),
        r matches Some(e) ==> k < e <= s@.len(),
    decreases s@.len() - k, 1int,
{
    proof { lemma_comment_rest(s@, k as int); }
    let _len = s.len();
    let mut j = k;
    loop
        invariant
            k <= j <= s@.len(),
            s@.len() == s.len(),
            comment_rest(s@, j as int) == comment_rest(s@, k as int),
        decreases s@.len() - j,
    {
        match scan_block_comment(s, j) {
            Some(j2) => {
                j = j2;
            },
            None => {
                let open = is_char_at(s, j, '/') && is_char_at(s, j + 1, '*');
                let close = is_char_at(s, j, '*') && is_char_at(s, j + 1, '/');
                if j < s.len() && s[j] != '/' && s[j] != '*' {
                    j = j + 1;
                } else if j < s.len() && !open && !close {
                    j = j + 1;
                } else if close {
                    return Some(j + 2);
                } else {
                    return None;
                }
            },
        }
    }
}

pub fn scan_string_literal(s: &[char], i: usize) -> (r: Option<usize>)
    requires
        i <= s@.len(),
    ensures
        opt_pos(r) == string_literal(s@, i as int),
        r matches Some(e) ==> i < e <= s@.len(),
{
    let _len = s.len();
    if is_char_at(s, i, '"') {
        scan_quote_rest(s, i + 1, '"')
    } else {
        None
    }
}

pub fn scan_char_literal(s: &[char], i: usize) -> (r: Option<usize>)
    requires
        i <= s@.len(),
    ensures
        opt_pos(r) == char_literal(s@, i as int),
        r matches Some(e) ==> i < e <= s@.len(),
{
    let _len = s.len();
    if !is_char_at(s, i, '\'') {
        return None;
    }
    let m = if is_char_at(s, i + 1, '\\') && i + 2 < s.len() {
        i + 3
    } else if i + 1 < s.len() && s[i + 1] != '"' && s[i + 1] != '\\' {
        i + 2
    } else {
        return None;
    };
    if is_char_at(s, m, '\'') {
        Some(m + 1)
    } else {
        None
    }
}

/// A comment or a string or character literal at `k`, tried in that order.
pub open spec fn skipped(s: Seq<char>, k: int) -> Option<int> {
    if line_comment(s, k) is Some {
        line_comment(s, k)
    } else if block_comment(s, k) is Some {
        block_comment(s, k)
    } else if string_literal(s, k) is Some {
        string_literal(s, k)
    } else {
        char_literal(s, k)
    }
}

/// A block `{ ... }` of Rust code: `{`, then nested blocks, comments, string
/// and character literals and other characters, then the matching `}`; a
/// committed failure where a `}` is missing.
pub open spec fn code_block(s: Seq<char>, i: int) -> Out<()>
    decreases s.len() - i, 0int,
{
    if 0 <= i && char_at(s, i, '{') {
        code_block_rest(s, i + 1)
    } else {
        Out::Back
    }
}

/// The content of a code block from `k`, and its closing `}`.
pub open spec fn code_block_rest(s: Seq<char>, k: int) -> Out<()>
    decreases s.len() - k, 1int,
{
    if k < 0 || k > s.len() {
        Out::Back
    } else {
        match code_block(s, k) {
            Out::Done(k2, _) if k < k2 <= s.len() => code_block_rest(s, k2),
            Out::Cut(p, t) => Out::Cut(p, t),
            _ => match skipped(s, k) {
                Some(k2) if k < k2 <= s.len() => code_block_rest(s, k2),
                _ => if k < s.len() && s[k] != '}' {
                    code_block_rest(s, k + 1)
                } else if k < s.len() {
                    Out::Done(k + 1, ())
                } else {
                    cut_expect(k, Expect::CloseBraceChar)
                },
            },
        }
    }
}

pub proof fn lemma_code_block(s: Seq<char>, i: int)
    requires
        0 <= i,
    ensures
        code_block(s, i) matches Out::Done(e, _) ==> i < e <= s.len(),
        code_block(s, i) matches Out::Cut(p, _) ==> 0 <= p <= s.len(),
    decreases s.len() - i, 0int,
{
    if char_at(s, i, '{') {
        lemma_code_block_rest(s, i + 1);
    }
}

pub proof fn lemma_code_block_rest(s: Seq<char>, k: int)
    requires
        0 <= k,
    ensures
        code_block_rest(s, k) matches Out::Done(e, _) ==> k < e <= s.len(),
        code_block_rest(s, k) matches Out::Cut(p, _) ==> 0 <= p <= s.len(),
    decreases s.len() - k, 1int,
{
    if k <= s.len() {
        lemma_code_block(s, k);
        match code_block(s, k) {
            Out::Done(k2, _) if k < k2 <= s.len() => lemma_code_block_rest(s, k2),
            Out::Cut(p, t) => {},
            _ => match skipped(s, k) {
                Some(k2) if k < k2 <= s.len() => lemma_code_block_rest(s, k2),
                _ => if k < s.len() && s[k] != '}' {
                    lemma_code_block_rest(s, k + 1);
                },
            },
        }
    }
}

/// The end of the code block at `i`.
pub fn block(s: &[char], i: usize) -> (r: Result<usize, PErr>)
    requires
        i <= s@.len(),
    ensures
        unit_out(r) == code_block(s@, i as int),
        r matches Ok(e) ==> i < e <= s@.len(),
        r matches Err(PErr::Cut(p, _)) ==> p <= s@.len(),
    decreases s@.len() - i, 0int,
{
    proof { lemma_code_block(s@, i as int); }
    let _len = s.len();
    if is_char_at(s, i, '{') {
        block_rest(s, i + 1)
    } else {
        Err(PErr::Back)
    }
}

fn block_rest(s: &[char], k: usize) -> (r: Result<usize, PErr>)
    requires
        k <= s@.len(),
    ensures
        unit_out(r) == code_block_rest(s@, k as int),
        r matches Ok(e) ==> k < e <= s@.len(),
        r matches Err(PErr::Cut(p, _)) ==> p <= s@.len(),
    decreases s@.len() - k, 1int,
{
    proof { lemma_code_block_rest(s@, k as int); }
    let _len = s.len();
    let mut j = k;
    loop
        invariant
            k <= j <= s@.len(),
            s@.len() == s.len(),
            code_block_rest(s@, j as int) == code_block_rest(s@, k as int),
        decreases s@.len() - j,
    {
        match block(s, j) {
            Ok(j2) => {
                j = j2;
                continue ;
            },
            Err(PErr::Cut(p, t)) => {
                return Err(PErr::Cut(p, t));
            },
            Err(PErr::Back) => {},
        }
        if let Some(j2) = scan_line_comment(s, j) {
            j = j2;
        } else if let Some(j2) = scan_block_comment(s, j) {
            j = j2;
        } else if let Some(j2) = scan_string_literal(s, j) {
            j = j2;
        } else if let Some(j2) = scan_char_literal(s, j) {
            j = j2;
        } else if j < s.len() && s[j] != '}' {
            j = j + 1;
        } else if j < s.len() {
            return Ok(j + 1);
        } else {
            return Err(cut_at(j, Expect::CloseBraceChar));
        }
    }
}

} // verus!
