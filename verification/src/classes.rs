//! Character classes used by the template grammar, and maximal runs of them.
use vstd::prelude::*;

verus! {

/// `char::is_alphabetic` (Unicode `Alphabetic` property).
pub uninterp spec fn unicode_alphabetic(c: char) -> bool;

/// `char::is_alphanumeric` (Unicode `Alphabetic` or `Numeric`).
pub uninterp spec fn unicode_alphanumeric(c: char) -> bool;

/// `char::is_whitespace` (Unicode `White_Space` property).
pub uninterp spec fn unicode_whitespace(c: char) -> bool;

/// `char::is_uppercase` (Unicode `Uppercase` property).
pub uninterp spec fn unicode_uppercase(c: char) -> bool;

/// Calls `char::is_alphabetic`; the result is the Unicode property, named above.
#[verifier::external_body]
pub(crate) fn is_alphabetic(c: char) -> (r: bool)
    ensures
        r == unicode_alphabetic(c),
{
    c.is_alphabetic()
}

/// Calls `char::is_alphanumeric`; the result is the Unicode property, named above.
#[verifier::external_body]
pub(crate) fn is_alphanumeric(c: char) -> (r: bool)
    ensures
        r == unicode_alphanumeric(c),
{
    c.is_alphanumeric()
}

/// Calls `char::is_whitespace`; the result is the Unicode property, named above.
#[verifier::external_body]
pub(crate) fn is_whitespace(c: char) -> (r: bool)
    ensures
        r == unicode_whitespace(c),
{
    c.is_whitespace()
}

/// Calls `char::is_uppercase`; the result is the Unicode property, named
/// above. Among ASCII characters, exactly `A` to `Z` have it.
#[verifier::external_body]
pub(crate) fn is_uppercase(c: char) -> (r: bool)
    ensures
        r == unicode_uppercase(c),
        c <= '\x7f' ==> (r <==> ('A' <= c && c <= 'Z')),
{
    c.is_uppercase()
}

pub open spec fn ascii_upper(c: char) -> bool {
    'A' <= c && c <= 'Z'
}

pub open spec fn ascii_lower(c: char) -> bool {
    'a' <= c && c <= 'z'
}

pub open spec fn ascii_alpha(c: char) -> bool {
    ascii_upper(c) || ascii_lower(c)
}

pub open spec fn ascii_digit(c: char) -> bool {
    '0' <= c && c <= '9'
}

pub open spec fn ascii_alnum(c: char) -> bool {
    ascii_alpha(c) || ascii_digit(c)
}

pub open spec fn ascii_hex(c: char) -> bool {
    ascii_digit(c) || ('a' <= c && c <= 'f') || ('A' <= c && c <= 'F')
}

/// The character classes whose maximal runs the grammar takes.
#[derive(Clone, Copy, PartialEq, Eq, Structural)]
pub enum Class {
    /// ' ', '\t', '\r', '\n'
    Space,
    /// Unicode alphanumeric or '_'
    IdentTail,
    /// ASCII alphanumeric
    AsciiAlnum,
    /// ASCII alphanumeric or '_'
    AsciiWord,
    /// ASCII decimal digit
    Digit,
    /// neither '@' nor '<'
    Text,
    /// neither '@', '<' nor '}'
    InnerText,
    /// none of '{', '}', '"', '\'', '/'
    Code,
    /// not '\n'
    LineRest,
    /// neither '/' nor '*'
    CommentText,
    /// none of '{', '@', '}'
    StmtHead,
    /// not '@'
    NotAt,
}

pub open spec fn in_class(c: char, k: Class) -> bool {
    match k {
        Class::Space => c == ' ' || c == '\t' || c == '\r' || c == '\n',
        Class::IdentTail => unicode_alphanumeric(c) || c == '_',
        Class::AsciiAlnum => ascii_alnum(c),
        Class::AsciiWord => ascii_alnum(c) || c == '_',
        Class::Digit => ascii_digit(c),
        Class::Text => c != '@' && c != '<',
        Class::InnerText => c != '@' && c != '<' && c != '}',
        Class::Code => c != '{' && c != '}' && c != '"' && c != '\'' && c != '/',
        Class::LineRest => c != '\n',
        Class::CommentText => c != '/' && c != '*',
        Class::StmtHead => c != '{' && c != '@' && c != '}',
        Class::NotAt => c != '@',
    }
}

pub fn has_class(c: char, k: Class) -> (r: bool)
    ensures
        r == in_class(c, k),
{
    match k {
        Class::Space => c == ' ' || c == '\t' || c == '\r' || c == '\n',
        Class::IdentTail => c == '_' || is_alphanumeric(c),
        Class::AsciiAlnum => ('A' <= c && c <= 'Z') || ('a' <= c && c <= 'z') || ('0' <= c && c
            <= '9'),
        Class::AsciiWord => ('A' <= c && c <= 'Z') || ('a' <= c && c <= 'z') || ('0' <= c && c
            <= '9') || c == '_',
        Class::Digit => '0' <= c && c <= '9',
        Class::Text => c != '@' && c != '<',
        Class::InnerText => c != '@' && c != '<' && c != '}',
        Class::Code => c != '{' && c != '}' && c != '"' && c != '\'' && c != '/',
        Class::LineRest => c != '\n',
        Class::CommentText => c != '/' && c != '*',
        Class::StmtHead => c != '{' && c != '@' && c != '}',
        Class::NotAt => c != '@',
    }
}

/// End of the maximal run of class `k` starting at `i`.
pub open spec fn run_end(s: Seq<char>, i: int, k: Class) -> int
    decreases s.len() - i,
{
    if 0 <= i < s.len() && in_class(s[i], k) {
        run_end(s, i + 1, k)
    } else {
        i
    }
}

pub proof fn lemma_run_end(s: Seq<char>, i: int, k: Class)
    requires
        0 <= i <= s.len(),
    ensures
        i <= run_end(s, i, k) <= s.len(),
        forall|j: int| i <= j < run_end(s, i, k) ==> #[trigger] in_class(s[j], k),
        run_end(s, i, k) < s.len() ==> !in_class(s[run_end(s, i, k)], k),
    decreases s.len() - i,
{
    if i < s.len() && in_class(s[i], k) {
        lemma_run_end(s, i + 1, k);
    }
}

/// Position after the maximal run of class `k` in `s` from `i`.
pub fn run(s: &[char], i: usize, k: Class) -> (r: usize)
    requires
        i <= s@.len(),
    ensures
        r == run_end(s@, i as int, k),
        i <= r <= s@.len(),
{
    proof { lemma_run_end(s@, i as int, k); }
    let mut j = i;
    while j < s.len() && has_class(s[j], k)
        invariant
            i <= j <= s@.len(),
            run_end(s@, j as int, k) == run_end(s@, i as int, k),
        decreases s@.len() - j,
    {
        j = j + 1;
    }
    j
}

/// `s` holds the characters of `lit` from position `i`.
pub open spec fn at(s: Seq<char>, i: int, lit: Seq<char>) -> bool {
    0 <= i && i + lit.len() <= s.len() && s.subrange(i, i + lit.len()) == lit
}

/// Whether `s` holds `lit` at position `i`.
pub fn starts_at(s: &[char], i: usize, lit: &str) -> (r: bool)
    requires
        i <= s@.len(),
    ensures
        r == at(s@, i as int, lit@),
{
    let l = crate::text::chars_of(lit);
    if l.len() > s.len() - i {
        return false;
    }
    let mut k: usize = 0;
    while k < l.len()
        invariant
            i + l@.len() <= s@.len(),
            l@ == lit@,
            s@.len() == s.len(),
            k <= l@.len(),
            forall|m: int| 0 <= m < k ==> s@[i + m] == l@[m],
        decreases l@.len() - k,
    {
        if s[i + k] != l[k] {
            assert(s@.subrange(i as int, i + l@.len())[k as int] != l@[k as int]);
            assert(s@.subrange(i as int, i + l@.len()) != l@);
            return false;
        }
        k = k + 1;
    }
    assert(s@.subrange(i as int, i + l@.len()) =~= l@);
    true
}

/// `s[i]` exists and equals `c`.
pub open spec fn char_at(s: Seq<char>, i: int, c: char) -> bool {
    0 <= i < s.len() && s[i] == c
}

pub fn is_char_at(s: &[char], i: usize, c: char) -> (r: bool)
    ensures
        r == char_at(s@, i as int, c),
{
    i < s.len() && s[i] == c
}

} // verus!
