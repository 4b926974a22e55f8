//! The rendering interface of compiled templates, and how a `#` in front of
//! an expression's text switches its escaping.
use vstd::prelude::*;
use crate::text::{chars_of, string_between};

verus! {

/// `std::fmt::Error`, the error of a formatting write; it carries nothing.
#[verifier::external_type_specification]
#[verifier::external_body]
pub struct ExFmtError(std::fmt::Error);

/// A value that renders itself as HTML: `fmt` writes it to a writer, and
/// `render` returns it as a string. The derive macro implements it for
/// structs with a template.
pub trait RsHtml {
    fn fmt<W: std::fmt::Write + ?Sized>(&mut self, out: &mut W) -> Result<(), std::fmt::Error>;

    fn render(&mut self) -> String;
}

/// An expression's text is escaped unless it starts with `#`.
pub open spec fn escaped_text(s: Seq<char>) -> bool {
    !(s.len() > 0 && s[0] == '#')
}

/// The expression's text without the `#` that marks it raw.
pub open spec fn unmarked_text(s: Seq<char>) -> Seq<char> {
    if escaped_text(s) {
        s
    } else {
        s.drop_first()
    }
}

/// Whether an expression's text is rendered escaped: it does not start
/// with `#`.
pub fn is_escaped(s: &str) -> (r: bool)
    ensures
        r == escaped_text(s@),
{
    let x = chars_of(s);
    !(x.len() > 0 && x[0] == '#')
}

/// The expression's text as it is rendered: unchanged when escaped, without
/// its leading `#` otherwise.
pub fn escaped_or_raw(s: &str) -> (r: String)
    ensures
        r@ == unmarked_text(s@),
{
    let x = chars_of(s);
    if is_escaped(s) {
        let r = string_between(x.as_slice(), 0, x.len());
        assert(r@ =~= s@);
        r
    } else {
        let r = string_between(x.as_slice(), 1, x.len());
        assert(r@ =~= s@.drop_first());
        r
    }
}

/// Marking a text raw and reading the mark back: `#` followed by any text
/// is not escaped, and what is rendered is that text.
pub proof fn raw_mark_round_trip(s: Seq<char>)
    ensures
        !escaped_text(seq!['#'] + s),
        unmarked_text(seq!['#'] + s) == s,
{
    assert((seq!['#'] + s)[0] == '#');
    assert((seq!['#'] + s).drop_first() =~= s);
}

/// A text that does not start with `#` is rendered as it is.
pub proof fn unmarked_text_is_kept(s: Seq<char>)
    requires
        escaped_text(s),
    ensures
        unmarked_text(s) == s,
{
}

} // verus!
