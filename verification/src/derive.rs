//! What the `RsHtml` derive works out from the struct it is given: the
//! template file it renders, and the names of the struct's fields.
use vstd::prelude::*;
use crate::classes::{ascii_upper, is_uppercase, unicode_uppercase};
use crate::diagnostics::{decimal, push_decimal};
use crate::names::ends_with;
use crate::text::{append_str, chars_of, push_char, same_text, string_between};

verus! {

/// `char::to_ascii_lowercase`: `A`..`Z` become `a`..`z`, other characters
/// stay.
pub open spec fn ascii_lowercase(c: char) -> char {
    if 'A' <= c && c <= 'Z' {
        ((c as u32) + 32) as char
    } else {
        c
    }
}

/// `s` in snake case (`to_snake_case`): each uppercase character becomes
/// `_` (unless it comes first) and its ASCII lowercase; others stay.
pub open spec fn snake_case(s: Seq<char>) -> Seq<char>
    decreases s.len(),
{
    if s.len() == 0 {
        Seq::empty()
    } else {
        let r = snake_case(s.drop_last());
        let c = s.last();
        if unicode_uppercase(c) {
            (if r.len() > 0 {
                r.push('_')
            } else {
                r
            }).push(ascii_lowercase(c))
        } else {
            r.push(c)
        }
    }
}

/// Every character of `s` is ASCII.
pub open spec fn ascii_text(s: Seq<char>) -> bool {
    forall|i: int| 0 <= i < s.len() ==> s[i] <= '\x7f'
}

/// No character of `s` is a capital letter `A` to `Z`.
pub open spec fn no_capitals(s: Seq<char>) -> bool {
    forall|i: int| 0 <= i < s.len() ==> !ascii_upper(s[i])
}

/// `snake_case` of an ASCII text, where `A` to `Z` are the uppercase
/// characters.
pub open spec fn ascii_snake(s: Seq<char>) -> Seq<char>
    decreases s.len(),
{
    if s.len() == 0 {
        Seq::empty()
    } else {
        let r = ascii_snake(s.drop_last());
        let c = s.last();
        if ascii_upper(c) {
            (if r.len() > 0 {
                r.push('_')
            } else {
                r
            }).push(ascii_lowercase(c))
        } else {
            r.push(c)
        }
    }
}

/// The capital letters of `s` after its first character.
pub open spec fn inner_capitals(s: Seq<char>) -> nat
    decreases s.len(),
{
    if s.len() == 0 {
        0
    } else {
        inner_capitals(s.drop_last()) + if ascii_upper(s.last()) && s.len() > 1 {
            1nat
        } else {
            0nat
        }
    }
}

proof fn lemma_snake_shape(s: Seq<char>)
    requires
        ascii_text(s),
    ensures
        ascii_text(ascii_snake(s)),
        no_capitals(ascii_snake(s)),
        ascii_snake(s).len() == s.len() + inner_capitals(s),
    decreases s.len(),
{
    if s.len() > 0 {
        let d = s.drop_last();
        assert(ascii_text(d)) by {
            assert forall|i: int| 0 <= i < d.len() implies d[i] <= '\x7f' by {
                assert(d[i] == s[i]);
            }
        }
        lemma_snake_shape(d);
        let r = ascii_snake(d);
        let c = s.last();
        assert(c == s[s.len() - 1]);
        if d.len() == 0 {
            assert(r.len() == 0);
        }
        if ascii_upper(c) {
            let l = ascii_lowercase(c);
            assert('a' <= l && l <= 'z');
            let r1 = if r.len() > 0 {
                r.push('_')
            } else {
                r
            };
            assert(ascii_text(r1) && no_capitals(r1)) by {
                assert forall|i: int| 0 <= i < r1.len() implies r1[i] <= '\x7f' && !ascii_upper(
                    r1[i],
                ) by {
                    if i < r.len() {
                        assert(r1[i] == r[i]);
                    }
                }
            }
            let r2 = r1.push(l);
            assert forall|i: int| 0 <= i < r2.len() implies r2[i] <= '\x7f' && !ascii_upper(
                r2[i],
            ) by {
                if i < r1.len() {
                    assert(r2[i] == r1[i]);
                }
            }
        } else {
            let r2 = r.push(c);
            assert forall|i: int| 0 <= i < r2.len() implies r2[i] <= '\x7f' && !ascii_upper(
                r2[i],
            ) by {
                if i < r.len() {
                    assert(r2[i] == r[i]);
                }
            }
        }
    }
}

proof fn lemma_snake_keeps_lowercase(t: Seq<char>)
    requires
        no_capitals(t),
    ensures
        ascii_snake(t) == t,
    decreases t.len(),
{
    if t.len() > 0 {
        let d = t.drop_last();
        assert(no_capitals(d)) by {
            assert forall|i: int| 0 <= i < d.len() implies !ascii_upper(d[i]) by {
                assert(d[i] == t[i]);
            }
        }
        lemma_snake_keeps_lowercase(d);
        assert(!ascii_upper(t[t.len() - 1]));
        assert(d.push(t.last()) =~= t);
    }
}

/// On ASCII text snake case settles: the result is ASCII, holds no capital
/// letter, is longer than the text by one `_` for each capital after the
/// first character, and putting it in snake case again changes nothing.
pub proof fn ascii_snake_case_settles(s: Seq<char>)
    requires
        ascii_text(s),
    ensures
        ascii_text(ascii_snake(s)),
        no_capitals(ascii_snake(s)),
        ascii_snake(s).len() == s.len() + inner_capitals(s),
        ascii_snake(ascii_snake(s)) == ascii_snake(s),
{
    lemma_snake_shape(s);
    lemma_snake_keeps_lowercase(ascii_snake(s));
}

fn lowercase(c: char) -> (r: char)
    ensures
        r == ascii_lowercase(c),
{
    if 'A' <= c && c <= 'Z' {
        let r = ((c as u8) + 32) as char;
        assert(r == ((c as u32) + 32) as char) by {
            assert((((c as u8) + 32) as u8) as char == ((c as u32) + 32) as char);
        }
        r
    } else {
        c
    }
}

/// `s` in snake case: an underscore before each uppercase character but a
/// first one, and ASCII capitals made lowercase.
pub fn to_snake_case(s: &str) -> (r: String)
    ensures
        r@ == snake_case(s@),
        ascii_text(s@) ==> r@ == ascii_snake(s@),
{
    let x = chars_of(s);
    let mut out = String::new();
    let mut empty = true;
    let mut i: usize = 0;
    while i < x.len()
        invariant
            x@ == s@,
            i <= x@.len(),
            out@ == snake_case(x@.subrange(0, i as int)),
            ascii_text(x@) ==> out@ == ascii_snake(x@.subrange(0, i as int)),
            empty == (out@.len() == 0),
        decreases x@.len() - i,
    {
        let c = x[i];
        proof {
            assert(x@.subrange(0, i + 1).drop_last() =~= x@.subrange(0, i as int));
            assert(x@.subrange(0, i + 1).last() == c);
        }
        if is_uppercase(c) {
            if !empty {
                push_char(&mut out, '_');
            }
            push_char(&mut out, lowercase(c));
        } else {
            push_char(&mut out, c);
        }
        empty = false;
        i = i + 1;
    }
    assert(x@.subrange(0, x@.len() as int) =~= x@);
    out
}

/// The template file of a struct named `name`: without a `Page` suffix,
/// with `.rs.html`, in snake case (`HomePage` renders `home.rs.html`).
pub open spec fn template_file_of(name: Seq<char>) -> Seq<char> {
    snake_case(page_base(name) + ".rs.html"@)
}

/// A struct name without a `Page` suffix.
pub open spec fn page_base(name: Seq<char>) -> Seq<char> {
    if ends_with(name, "Page"@) {
        name.subrange(0, name.len() - 4)
    } else {
        name
    }
}

/// The template file of an ASCII struct name, with `A` to `Z` as its
/// capitals.
pub open spec fn ascii_template_file_of(name: Seq<char>) -> Seq<char> {
    ascii_snake(page_base(name) + ".rs.html"@)
}

/// The template a struct renders: the path its `#[rshtml(path = ...)]`
/// attribute gives, or else the file named after the struct.
pub fn template_name(struct_name: &str, path: Option<String>) -> (r: String)
    ensures
        r@ == match path {
            Some(p) => p@,
            None => template_file_of(struct_name@),
        },
        path is None && ascii_text(struct_name@) ==> r@ == ascii_template_file_of(struct_name@),
{
    match path {
        Some(p) => p,
        None => {
            let x = chars_of(struct_name);
            proof {
                reveal_strlit("Page");
            }
            let stripped = crate::names::is_ending(x.as_slice(), "Page");
            let mut base = if stripped {
                string_between(x.as_slice(), 0, x.len() - 4)
            } else {
                string_between(x.as_slice(), 0, x.len())
            };
            assert(x@.subrange(0, x@.len() as int) =~= x@);
            let ghost b0 = base@;
            append_str(&mut base, ".rs.html");
            proof {
                reveal_strlit(".rs.html");
                if ascii_text(struct_name@) {
                    assert(b0 == page_base(struct_name@));
                    assert forall|i: int| 0 <= i < base@.len() implies base@[i] <= '\x7f' by {
                        if i < b0.len() {
                            assert(base@[i] == b0[i]);
                            assert(b0[i] == struct_name@[i]);
                        } else {
                            assert(base@[i] == ".rs.html"@[i - b0.len()]);
                        }
                    }
                }
            }
            to_snake_case(base.as_str())
        },
    }
}

/// What a property of the `#[rshtml(...)]` attribute sets.
#[derive(Clone, Copy, PartialEq, Eq, Structural, Debug)]
pub enum ConfigKey {
    /// `path = "..."`: the template's path.
    Path,
    /// `no_warn`: no warnings.
    NoWarn,
    /// anything else, which is an error.
    Unsupported,
}

/// The property that a nested item of `#[rshtml(...)]` sets, given its path
/// as a single identifier (`None` when the path is not one).
pub open spec fn config_key_of(name: Option<Seq<char>>) -> ConfigKey {
    match name {
        Some(n) => if n == "path"@ {
            ConfigKey::Path
        } else if n == "no_warn"@ {
            ConfigKey::NoWarn
        } else {
            ConfigKey::Unsupported
        },
        None => ConfigKey::Unsupported,
    }
}

/// The property that a nested item of `#[rshtml(...)]` sets.
pub fn config_key(name: Option<String>) -> (r: ConfigKey)
    ensures
        r == config_key_of(name.deep_view()),
{
    match name {
        Some(n) => if same_text(n.as_str(), "path") {
            ConfigKey::Path
        } else if same_text(n.as_str(), "no_warn") {
            ConfigKey::NoWarn
        } else {
            ConfigKey::Unsupported
        },
        None => ConfigKey::Unsupported,
    }
}

/// The fields of the struct being derived, as `syn` shows them: named
/// fields, a number of unnamed ones, or no struct fields at all (a unit
/// struct, an enum or a union).
pub enum StructShape {
    Named(Vec<String>),
    Unnamed(usize),
    Other,
}

/// The field names of a shape: the names; `0`, `1`, ... for unnamed fields;
/// none otherwise.
pub open spec fn field_names(shape: StructShape) -> Seq<Seq<char>> {
    match shape {
        StructShape::Named(v) => v.deep_view(),
        StructShape::Unnamed(n) => Seq::new(n as nat, |i: int| decimal(i as nat)),
        StructShape::Other => Seq::empty(),
    }
}

/// The names by which a template reads the struct's fields (`self.name`).
pub fn get_struct_fields(shape: StructShape) -> (r: Vec<String>)
    ensures
        r.deep_view() == field_names(shape),
{
    match shape {
        StructShape::Named(v) => v,
        StructShape::Unnamed(n) => {
            let mut r: Vec<String> = Vec::new();
            let mut i: usize = 0;
            while i < n
                invariant
                    i <= n,
                    r.deep_view() =~= Seq::new(i as nat, |k: int| decimal(k as nat)),
                decreases n - i,
            {
                let mut d = String::new();
                push_decimal(&mut d, i);
                let ghost before = r.deep_view();
                r.push(d);
                assert(r.deep_view() =~= before.push(decimal(i as nat)));
                i = i + 1;
            }
            r
        },
        StructShape::Other => Vec::new(),
    }
}

} // verus!
