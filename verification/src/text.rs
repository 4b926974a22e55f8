use vstd::prelude::*;
use vstd::utf8::{encode_scalar, encode_utf8};

verus! {

/// ASCII whitespace as recognised by the template grammar (space, tab, CR, LF).
pub open spec fn is_space(c: char) -> bool {
    c == ' ' || c == '\t' || c == '\r' || c == '\n'
}

pub fn space(c: char) -> (r: bool)
    ensures
        r == is_space(c),
{
    c == ' ' || c == '\t' || c == '\r' || c == '\n'
}

/// Characters of `s` from `i` to `j` as a `Vec`.
pub fn chars_between(s: &[char], i: usize, j: usize) -> (r: Vec<char>)
    requires
        i <= j <= s@.len(),
    ensures
        r@ == s@.subrange(i as int, j as int),
{
    let mut r: Vec<char> = Vec::new();
    let mut k = i;
    while k < j
        invariant
            i <= k <= j <= s@.len(),
            r@ == s@.subrange(i as int, k as int),
        decreases j - k,
    {
        r.push(s[k]);
        k = k + 1;
        assert(r@ =~= s@.subrange(i as int, k as int));
    }
    r
}


/// The characters of `s`, in order.
pub fn chars_of(s: &str) -> (r: Vec<char>)
    ensures
        r@ == s@,
{
    broadcast use vstd::string::group_string_axioms;
    let mut r: Vec<char> = Vec::new();
    for c in it: s.chars()
        invariant
            r@ == it.seq().take(it.index() as int),
            it.seq() == s@,
    {
        r.push(c);
        assert(r@ =~= it.seq().take(it.index() + 1));
    }
    r
}

/// Appends one character to a `String` (`String::push`).
#[verifier::external_body]
pub(crate) fn push_char(s: &mut String, c: char)
    ensures
        final(s)@ == old(s)@.push(c),
{
    s.push(c);
}

/// A `String` holding the characters `s[i..j]`.
pub fn string_between(s: &[char], i: usize, j: usize) -> (r: String)
    requires
        i <= j <= s@.len(),
    ensures
        r@ == s@.subrange(i as int, j as int),
{
    let mut r = String::new();
    let mut k = i;
    while k < j
        invariant
            i <= k <= j <= s@.len(),
            r@ == s@.subrange(i as int, k as int),
        decreases j - k,
    {
        push_char(&mut r, s[k]);
        k = k + 1;
        assert(r@ =~= s@.subrange(i as int, k as int));
    }
    r
}


/// Appends the characters of `t` to `out`.
pub fn append_str(out: &mut String, t: &str)
    ensures
        final(out)@ == old(out)@ + t@,
{
    let x = chars_of(t);
    let mut k: usize = 0;
    while k < x.len()
        invariant
            x@ == t@,
            k <= x@.len(),
            out@ == old(out)@ + x@.subrange(0, k as int),
        decreases x@.len() - k,
    {
        push_char(out, x[k]);
        k = k + 1;
        assert(out@ =~= old(out)@ + x@.subrange(0, k as int));
    }
    assert(x@.subrange(0, x@.len() as int) =~= x@);
}

/// The number of bytes of the UTF-8 encoding of `c`.
pub open spec fn char_width(c: char) -> nat {
    if (c as u32) < 0x80 {
        1
    } else if (c as u32) < 0x800 {
        2
    } else if (c as u32) < 0x10000 {
        3
    } else {
        4
    }
}

/// The number of bytes of the UTF-8 encoding of `c`.
pub fn utf8_width(c: char) -> (r: usize)
    ensures
        r == encode_scalar(c as u32).len(),
        r == char_width(c),
{
    let v = c as u32;
    if v < 0x80 {
        1
    } else if v < 0x800 {
        2
    } else if v < 0x10000 {
        3
    } else {
        4
    }
}

proof fn lemma_suffix_bytes(s: Seq<char>, i: int)
    requires
        0 <= i <= s.len(),
    ensures
        encode_utf8(s.subrange(i, s.len() as int)).len() <= encode_utf8(s).len(),
    decreases i,
{
    if i > 0 {
        lemma_suffix_bytes(s, i - 1);
        let t = s.subrange(i - 1, s.len() as int);
        assert(t.drop_first() =~= s.subrange(i, s.len() as int));
    } else {
        assert(s.subrange(0, s.len() as int) =~= s);
    }
}

/// The number of bytes of the UTF-8 encoding of `s[e..]`, where the whole
/// of `s` encodes in `total` bytes.
pub fn suffix_bytes(s: &[char], e: usize, total: usize) -> (r: usize)
    requires
        e <= s@.len(),
        total == encode_utf8(s@).len(),
    ensures
        r == encode_utf8(s@.subrange(e as int, s@.len() as int)).len(),
{
    let _len = s.len();
    let mut i = s.len();
    let mut acc: usize = 0;
    assert(s@.subrange(i as int, i as int) =~= Seq::<char>::empty());
    while i > e
        invariant
            e <= i <= s@.len(),
            s@.len() == s.len(),
            total == encode_utf8(s@).len(),
            acc == encode_utf8(s@.subrange(i as int, s@.len() as int)).len(),
        decreases i,
    {
        proof {
            let t = s@.subrange(i - 1, s@.len() as int);
            assert(t.drop_first() =~= s@.subrange(i as int, s@.len() as int));
            assert(t[0] == s@[i - 1]);
            lemma_suffix_bytes(s@, i - 1);
        }
        acc = acc + utf8_width(s[i - 1]);
        i = i - 1;
    }
    acc
}

/// Whether two strings hold the same characters.
pub fn same_text(a: &str, b: &str) -> (r: bool)
    ensures
        r == (a@ == b@),
{
    let x = chars_of(a);
    let y = chars_of(b);
    if x.len() != y.len() {
        return false;
    }
    let mut k: usize = 0;
    while k < x.len()
        invariant
            x@.len() == y@.len(),
            x@ == a@,
            y@ == b@,
            k <= x@.len(),
            forall|m: int| 0 <= m < k ==> x@[m] == y@[m],
        decreases x@.len() - k,
    {
        if x[k] != y[k] {
            return false;
        }
        k = k + 1;
    }
    assert(x@ =~= y@);
    true
}

} // verus!
