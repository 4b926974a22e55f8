//! Names derived from template paths: the component name a file defines,
//! the name of the function it compiles to, and the struct fields an
//! expression reads.
use vstd::prelude::*;
use vstd::utf8::encode_utf8;
use crate::classes::{is_whitespace, unicode_whitespace};
use crate::syntax::{parses_as_member, syn_member_ok};
use crate::text::{chars_of, push_char, string_between};

verus! {

/// Start of the path segment that ends at `e` (just after the previous `/`).
pub open spec fn segment_start(p: Seq<char>, e: int) -> int
    decreases e,
{
    if e > 0 && p[e - 1] != '/' {
        segment_start(p, e - 1)
    } else {
        e
    }
}

/// The last component of `p[..e]` that names a file or directory, as
/// `Path::file_name` reads a `/`-separated path: empty segments and `.`
/// are skipped, and a final `..` has no name.
pub open spec fn file_name_upto(p: Seq<char>, e: int) -> Option<Seq<char>>
    decreases e,
{
    if e <= 0 || e > p.len() {
        None
    } else if p[e - 1] == '/' {
        file_name_upto(p, e - 1)
    } else {
        let b = segment_start(p, e);
        proof {
            lemma_segment_start(p, e);
        }
        let seg = p.subrange(b, e);
        if seg == seq!['.'] {
            file_name_upto(p, b)
        } else if seg == seq!['.', '.'] {
            None
        } else {
            Some(seg)
        }
    }
}

pub open spec fn file_name(p: Seq<char>) -> Option<Seq<char>> {
    file_name_upto(p, p.len() as int)
}

pub proof fn lemma_segment_start(p: Seq<char>, e: int)
    requires
        0 <= e <= p.len(),
    ensures
        0 <= segment_start(p, e) <= e,
        segment_start(p, e) > 0 ==> p[segment_start(p, e) - 1] == '/',
        e > 0 && p[e - 1] != '/' ==> segment_start(p, e) < e,
    decreases e,
{
    if e > 0 && p[e - 1] != '/' {
        lemma_segment_start(p, e - 1);
    }
}

/// The suffix of template files.
pub open spec fn template_suffix() -> Seq<char> {
    seq!['.', 'r', 's', '.', 'h', 't', 'm', 'l']
}

pub open spec fn ends_with(s: Seq<char>, suffix: Seq<char>) -> bool {
    suffix.len() <= s.len() && s.subrange(s.len() - suffix.len(), s.len() as int) == suffix
}

/// `s` without the template suffix, when it has it.
pub open spec fn strip_template_suffix(s: Seq<char>) -> Seq<char> {
    if ends_with(s, template_suffix()) {
        s.subrange(0, s.len() - template_suffix().len())
    } else {
        s
    }
}

/// The component name of a template path: its file name without `.rs.html`.
pub open spec fn component_name(p: Seq<char>) -> Option<Seq<char>> {
    match file_name(p) {
        Some(f) => Some(strip_template_suffix(f)),
        None => None,
    }
}

fn segment_begin(p: &[char], e: usize) -> (b: usize)
    requires
        e <= p@.len(),
    ensures
        b == segment_start(p@, e as int),
        b <= e,
{
    proof { lemma_segment_start(p@, e as int); }
    let mut b = e;
    while b > 0 && p[b - 1] != '/'
        invariant
            b <= e <= p@.len(),
            segment_start(p@, b as int) == segment_start(p@, e as int),
        decreases b,
    {
        b = b - 1;
    }
    b
}

pub(crate) fn is_ending(s: &[char], suffix: &str) -> (r: bool)
    ensures
        r == ends_with(s@, suffix@),
{
    let x = chars_of(suffix);
    if x.len() > s.len() {
        return false;
    }
    let off = s.len() - x.len();
    let mut k: usize = 0;
    while k < x.len()
        invariant
            off + x@.len() == s@.len(),
            s@.len() == s.len(),
            x@ == suffix@,
            k <= x@.len(),
            forall|m: int| 0 <= m < k ==> s@[off + m] == x@[m],
        decreases x@.len() - k,
    {
        if s[off + k] != x[k] {
            assert(s@.subrange(off as int, s@.len() as int)[k as int] != x@[k as int]);
            assert(s@.subrange(off as int, s@.len() as int) != x@);
            return false;
        }
        k = k + 1;
    }
    assert(s@.subrange(off as int, s@.len() as int) =~= x@);
    true
}

/// The file name of the path, as characters (`Path::file_name` on a
/// `/`-separated path).
pub fn path_file_name(p: &[char]) -> (r: Option<(usize, usize)>)
    ensures
        match r {
            Some((b, e)) => b <= e <= p@.len() && file_name(p@) == Some(p@.subrange(
                b as int,
                e as int,
            )),
            None => file_name(p@) is None,
        },
{
    let mut e = p.len();
    loop
        invariant
            e <= p@.len(),
            file_name_upto(p@, e as int) == file_name(p@),
        decreases e,
    {
        if e == 0 {
            return None;
        }
        if p[e - 1] == '/' {
            e = e - 1;
            continue ;
        }
        let b = segment_begin(p, e);
        proof { lemma_segment_start(p@, e as int); }
        if e - b == 1 && p[b] == '.' {
            assert(p@.subrange(b as int, e as int) =~= seq!['.']);
            e = b;
            continue ;
        }
        if e - b == 2 && p[b] == '.' && p[b + 1] == '.' {
            assert(p@.subrange(b as int, e as int) =~= seq!['.', '.']);
            return None;
        }
        assert(p@.subrange(b as int, e as int) != seq!['.']) by {
            let t = p@.subrange(b as int, e as int);
            if t == seq!['.'] {
                assert(t.len() == seq!['.'].len());
                assert(t[0] == seq!['.'][0]);
                assert(t[0] == p@[b as int]);
            }
        }
        assert(p@.subrange(b as int, e as int) != seq!['.', '.']) by {
            let t = p@.subrange(b as int, e as int);
            if t == seq!['.', '.'] {
                assert(t.len() == seq!['.', '.'].len());
                assert(t[0] == seq!['.', '.'][0]);
                assert(t[1] == seq!['.', '.'][1]);
                assert(t[0] == p@[b as int]);
                assert(t[1] == p@[b + 1]);
            }
        }
        return Some((b, e));
    }
}

/// The name of the component a template file defines: the file name of its
/// path without the `.rs.html` suffix; `None` when the path names no file.
pub fn extract_component_name(path: &str) -> (r: Option<String>)
    ensures
        r.deep_view() == component_name(path@),
{
    let p = chars_of(path);
    match path_file_name(p.as_slice()) {
        None => None,
        Some((b, e)) => {
            let f = string_between(p.as_slice(), b, e);
            let fc = chars_of(f.as_str());
            if is_ending(fc.as_slice(), ".rs.html") {
                proof {
                    reveal_strlit(".rs.html");
                    assert(".rs.html"@ =~= template_suffix());
                }
                let name = string_between(fc.as_slice(), 0, fc.len() - 8);
                Some(name)
            } else {
                proof {
                    reveal_strlit(".rs.html");
                    assert(".rs.html"@ =~= template_suffix());
                }
                Some(f)
            }
        },
    }
}


/// The djb2 hash of `bytes` with 64-bit wrapping arithmetic:
/// start from 5381, then `h = h * 33 + b` for each byte.
pub open spec fn djb2(bytes: Seq<u8>) -> u64
    decreases bytes.len(),
{
    if bytes.len() == 0 {
        5381
    } else {
        let h = djb2(bytes.drop_last());
        ((h as int * 33 + bytes.last() as int) % 0x1_0000_0000_0000_0000) as u64
    }
}

/// A lowercase hexadecimal digit.
pub open spec fn hex_digit(d: int) -> char {
    if d < 10 {
        ((d + 48) as u32) as char
    } else {
        ((d + 87) as u32) as char
    }
}

/// `n` in lowercase hexadecimal without leading zeros (`{:x}`).
pub open spec fn hex(n: nat) -> Seq<char>
    decreases n,
{
    if n < 16 {
        seq![hex_digit(n as int)]
    } else {
        hex(n / 16).push(hex_digit((n % 16) as int))
    }
}

/// The value of a digit: `0`-`9`, then `a`-`f` for ten to fifteen.
pub open spec fn digit_value(c: char) -> int {
    if '0' <= c && c <= '9' {
        (c as int) - 48
    } else if 'a' <= c && c <= 'f' {
        (c as int) - 87
    } else {
        -1
    }
}

/// The number that digits `s` stand for in base `r`.
pub open spec fn digits_value(s: Seq<char>, r: int) -> int
    decreases s.len(),
{
    if s.len() == 0 {
        0
    } else {
        digits_value(s.drop_last(), r) * r + digit_value(s.last())
    }
}

/// Written in hexadecimal, `n` reads back as `n`: its digits are `0`-`9` and
/// `a`-`f`, it has at least one, and it starts with `0` only when `n` is 0.
pub proof fn hex_reads_back(n: nat)
    ensures
        digits_value(hex(n), 16) == n,
        hex(n).len() > 0,
        forall|i: int| 0 <= i < hex(n).len() ==> 0 <= #[trigger] digit_value(hex(n)[i]) < 16,
        n > 0 ==> hex(n)[0] != '0',
    decreases n,
{
    if n < 16 {
        let c = hex_digit(n as int);
        assert(hex(n) =~= seq![c]);
        assert(seq![c].drop_last() =~= Seq::<char>::empty());
        assert(digits_value(Seq::<char>::empty(), 16) == 0);
        assert(seq![c].last() == c);
        if n < 10 {
            assert(c as int == n + 48);
        } else {
            assert(c as int == n + 87);
        }
        assert(digit_value(c) == n);
    } else {
        let q = n / 16;
        let d = (n % 16) as int;
        hex_reads_back(q);
        let c = hex_digit(d);
        if d < 10 {
            assert(c as int == d + 48);
        } else {
            assert(c as int == d + 87);
        }
        assert(hex(n) == hex(q).push(c));
        assert(hex(n).drop_last() =~= hex(q));
        assert(hex(n).last() == c);
        assert(digit_value(c) == d);
        assert(digits_value(hex(n), 16) == digits_value(hex(q), 16) * 16 + d);
        assert(q * 16 + d == n) by (nonlinear_arith)
            requires
                q == n / 16,
                d == n % 16,
        ;
        assert forall|i: int| 0 <= i < hex(n).len() implies 0 <= #[trigger] digit_value(hex(n)[i])
            < 16 by {
            if i < hex(q).len() {
                assert(hex(n)[i] == hex(q)[i]);
            }
        }
        assert(hex(n)[0] == hex(q)[0]);
    }
}

/// The function name a template compiles to: its component name (empty when
/// the path names no file), `_`, and the djb2 hash of the path's UTF-8 bytes
/// in hexadecimal.
pub open spec fn fn_name_of(path: Seq<char>) -> Seq<char> {
    let name = match component_name(path) {
        Some(n) => n,
        None => Seq::empty(),
    };
    name + seq!['_'] + hex(djb2(encode_utf8(path)) as nat)
}

fn push_hex(out: &mut String, n: u64)
    ensures
        final(out)@ == old(out)@ + hex(n as nat),
    decreases n,
{
    let d = n % 16;
    let c: char = if d < 10 {
        ((d as u8) + 48) as char
    } else {
        ((d as u8) + 87) as char
    };
    proof {
        assert(c == hex_digit(d as int)) by {
            if d < 10 {
                assert((((d as u8) + 48) as u8) as char == ((d + 48) as u32) as char);
            } else {
                assert((((d as u8) + 87) as u8) as char == ((d + 87) as u32) as char);
            }
        }
    }
    if n >= 16 {
        push_hex(out, n / 16);
    }
    push_char(out, c);
    proof {
        if n < 16 {
            assert(d == n);
        }
    }
}

/// The djb2 hash of the bytes.
pub fn djb2_hash(bytes: &[u8]) -> (h: u64)
    ensures
        h == djb2(bytes@),
{
    let mut hash: u64 = 5381;
    let mut i: usize = 0;
    while i < bytes.len()
        invariant
            i <= bytes@.len(),
            hash == djb2(bytes@.subrange(0, i as int)),
        decreases bytes@.len() - i,
    {
        let ghost prev = bytes@.subrange(0, i as int);
        let c = bytes[i];
        let shifted = hash << 5;
        assert(shifted == ((hash as int * 32) % 0x1_0000_0000_0000_0000) as u64) by (bit_vector)
            requires
                shifted == hash << 5,
        ;
        let ghost old_hash = hash;
        let t = shifted.wrapping_add(hash);
        assert(t as int == (hash as int * 33) % 0x1_0000_0000_0000_0000) by (nonlinear_arith)
            requires
                shifted as int == (hash as int * 32) % 0x1_0000_0000_0000_0000,
                t as int == if shifted + hash > u64::MAX {
                    shifted + hash - 0x1_0000_0000_0000_0000
                } else {
                    shifted + hash
                },
                hash < 0x1_0000_0000_0000_0000,
        ;
        hash = t.wrapping_add(c as u64);
        assert(hash as int == (old_hash as int * 33 + c as int) % 0x1_0000_0000_0000_0000) by (nonlinear_arith)
            requires
                t as int == (old_hash as int * 33) % 0x1_0000_0000_0000_0000,
                hash as int == if t + c > u64::MAX {
                    t + c - 0x1_0000_0000_0000_0000
                } else {
                    t + c
                },
                c < 256,
        ;
        i = i + 1;
        proof {
            let cur = bytes@.subrange(0, i as int);
            assert(cur.drop_last() =~= prev);
            assert(cur.last() == c);
        }
    }
    assert(bytes@.subrange(0, bytes@.len() as int) =~= bytes@);
    hash
}

/// The name of the function a template compiles to.
pub fn generate_fn_name(path: &str) -> (r: String)
    ensures
        r@ == fn_name_of(path@),
{
    let mut out = match extract_component_name(path) {
        Some(n) => n,
        None => String::new(),
    };
    push_char(&mut out, '_');
    let h = djb2_hash(path.as_bytes());
    push_hex(&mut out, h);
    out
}


/// Characters the trimming steps of `get_struct_field` remove.
#[derive(Clone, Copy, PartialEq, Eq, Structural)]
pub enum Trim {
    /// Unicode whitespace (`str::trim`)
    Space,
    /// `&` (`str::trim_start_matches('&')`)
    Amp,
}

pub open spec fn trimmed(c: char, t: Trim) -> bool {
    match t {
        Trim::Space => unicode_whitespace(c),
        Trim::Amp => c == '&',
    }
}

/// First index in `[i, hi)` whose character is not removed by `t` (or `hi`).
pub open spec fn skip_front(s: Seq<char>, i: int, hi: int, t: Trim) -> int
    decreases hi - i,
{
    if i < hi && 0 <= i < s.len() && trimmed(s[i], t) {
        skip_front(s, i + 1, hi, t)
    } else {
        i
    }
}

/// Last end in `(lo, e]` whose preceding character is not removed by `t` (or `lo`).
pub open spec fn skip_back(s: Seq<char>, lo: int, e: int, t: Trim) -> int
    decreases e - lo,
{
    if lo < e && 0 < e <= s.len() && trimmed(s[e - 1], t) {
        skip_back(s, lo, e - 1, t)
    } else {
        e
    }
}

/// Index of the first `.` in `[i, hi)`, or `hi`.
pub open spec fn dot_or_end(s: Seq<char>, i: int, hi: int) -> int
    decreases hi - i,
{
    if i < hi && 0 <= i < s.len() && s[i] != '.' {
        dot_or_end(s, i + 1, hi)
    } else {
        i
    }
}

pub open spec fn self_dot() -> Seq<char> {
    seq!['s', 'e', 'l', 'f', '.']
}

/// The struct field an expression reads (`get_struct_field`): the text is
/// trimmed, leading `&`s and whitespace are dropped, and when what is left
/// starts with `self.`, the name up to the next `.` is the field if `syn`
/// reads it as a member.
pub open spec fn struct_field_of(s: Seq<char>) -> Option<Seq<char>> {
    let a = skip_front(s, 0, s.len() as int, Trim::Space);
    let b = skip_back(s, a, s.len() as int, Trim::Space);
    let c = skip_front(s, a, b, Trim::Amp);
    let d = skip_front(s, c, b, Trim::Space);
    let e = skip_back(s, d, b, Trim::Space);
    if e - d >= 5 && s.subrange(d, d + 5) == self_dot() {
        let f = dot_or_end(s, d + 5, e);
        if syn_member_ok(s.subrange(d + 5, f)) {
            Some(s.subrange(d + 5, f))
        } else {
            None
        }
    } else {
        None
    }
}

fn strips(c: char, t: Trim) -> (r: bool)
    ensures
        r == trimmed(c, t),
{
    match t {
        Trim::Space => is_whitespace(c),
        Trim::Amp => c == '&',
    }
}

fn front(s: &[char], i: usize, hi: usize, t: Trim) -> (r: usize)
    requires
        i <= hi <= s@.len(),
    ensures
        r == skip_front(s@, i as int, hi as int, t),
        i <= r <= hi,
{
    let mut j = i;
    while j < hi && strips(s[j], t)
        invariant
            i <= j <= hi <= s@.len(),
            skip_front(s@, j as int, hi as int, t) == skip_front(s@, i as int, hi as int, t),
        decreases hi - j,
    {
        j = j + 1;
    }
    j
}

fn back(s: &[char], lo: usize, e: usize, t: Trim) -> (r: usize)
    requires
        lo <= e <= s@.len(),
    ensures
        r == skip_back(s@, lo as int, e as int, t),
        lo <= r <= e,
{
    let mut j = e;
    while lo < j && strips(s[j - 1], t)
        invariant
            lo <= j <= e <= s@.len(),
            skip_back(s@, lo as int, j as int, t) == skip_back(s@, lo as int, e as int, t),
        decreases j - lo,
    {
        j = j - 1;
    }
    j
}

/// `s` without Unicode whitespace at either end (`str::trim`).
pub open spec fn trim(s: Seq<char>) -> Seq<char> {
    let a = skip_front(s, 0, s.len() as int, Trim::Space);
    s.subrange(a, skip_back(s, a, s.len() as int, Trim::Space))
}

proof fn lemma_skip_front(s: Seq<char>, i: int, hi: int, t: Trim)
    requires
        0 <= i <= hi <= s.len(),
    ensures
        i <= skip_front(s, i, hi, t) <= hi,
        forall|j: int| i <= j < skip_front(s, i, hi, t) ==> trimmed(#[trigger] s[j], t),
        skip_front(s, i, hi, t) < hi ==> !trimmed(s[skip_front(s, i, hi, t)], t),
    decreases hi - i,
{
    if i < hi && trimmed(s[i], t) {
        lemma_skip_front(s, i + 1, hi, t);
    }
}

proof fn lemma_skip_back(s: Seq<char>, lo: int, e: int, t: Trim)
    requires
        0 <= lo <= e <= s.len(),
    ensures
        lo <= skip_back(s, lo, e, t) <= e,
        forall|j: int| skip_back(s, lo, e, t) <= j < e ==> trimmed(#[trigger] s[j], t),
        skip_back(s, lo, e, t) > lo ==> !trimmed(s[skip_back(s, lo, e, t) - 1], t),
    decreases e - lo,
{
    if lo < e && trimmed(s[e - 1], t) {
        lemma_skip_back(s, lo, e - 1, t);
    }
}

/// Trimming keeps a stretch of the text, drops only whitespace around it,
/// and leaves no whitespace at either end of what it keeps.
pub proof fn trim_drops_only_outer_whitespace(s: Seq<char>)
    ensures
        exists|a: int, b: int|
            0 <= a <= b <= s.len() && trim(s) == s.subrange(a, b) && (forall|j: int|
                0 <= j < a ==> unicode_whitespace(#[trigger] s[j])) && (forall|j: int|
                b <= j < s.len() ==> unicode_whitespace(#[trigger] s[j])),
        trim(s).len() > 0 ==> !unicode_whitespace(trim(s)[0]) && !unicode_whitespace(
            trim(s)[trim(s).len() - 1],
        ),
{
    let n = s.len() as int;
    lemma_skip_front(s, 0, n, Trim::Space);
    let a = skip_front(s, 0, n, Trim::Space);
    lemma_skip_back(s, a, n, Trim::Space);
    let b = skip_back(s, a, n, Trim::Space);
    assert(trim(s) == s.subrange(a, b));
    assert(forall|j: int| 0 <= j < a ==> unicode_whitespace(#[trigger] s[j])) by {
        assert forall|j: int| 0 <= j < a implies unicode_whitespace(#[trigger] s[j]) by {
            assert(trimmed(s[j], Trim::Space));
        }
    }
    assert(forall|j: int| b <= j < n ==> unicode_whitespace(#[trigger] s[j])) by {
        assert forall|j: int| b <= j < n implies unicode_whitespace(#[trigger] s[j]) by {
            assert(trimmed(s[j], Trim::Space));
        }
    }
    if b > a {
        assert(trim(s)[0] == s[a]);
        assert(trim(s)[trim(s).len() - 1] == s[b - 1]);
        assert(!trimmed(s[b - 1], Trim::Space));
        assert(a < n);
        assert(!trimmed(s[a], Trim::Space));
    }
}

/// `s` without whitespace at either end.
pub fn trim_str(s: &str) -> (r: String)
    ensures
        r@ == trim(s@),
{
    let v = chars_of(s);
    let n = v.len();
    let a = front(v.as_slice(), 0, n, Trim::Space);
    let b = back(v.as_slice(), a, n, Trim::Space);
    string_between(v.as_slice(), a, b)
}

/// The struct field that `expr` reads through `self`, if any.
pub fn get_struct_field(expr: &str) -> (r: Option<String>)
    ensures
        r.deep_view() == struct_field_of(expr@),
{
    let v = chars_of(expr);
    let s = v.as_slice();
    let n = s.len();
    let a = front(s, 0, n, Trim::Space);
    let b = back(s, a, n, Trim::Space);
    let c = front(s, a, b, Trim::Amp);
    let d = front(s, c, b, Trim::Space);
    let e = back(s, d, b, Trim::Space);
    if e - d >= 5 && s[d] == 's' && s[d + 1] == 'e' && s[d + 2] == 'l' && s[d + 3] == 'f' && s[d
        + 4] == '.' {
        assert(s@.subrange(d as int, d + 5) =~= self_dot());
        let mut f = d + 5;
        while f < e && s[f] != '.'
            invariant
                d + 5 <= f <= e <= s@.len(),
                dot_or_end(s@, f as int, e as int) == dot_or_end(s@, d + 5, e as int),
            decreases e - f,
        {
            f = f + 1;
        }
        let cand = string_between(s, d + 5, f);
        if parses_as_member(cand.as_str()) {
            Some(cand)
        } else {
            None
        }
    } else {
        proof {
            if e - d >= 5 {
                let t = s@.subrange(d as int, d + 5);
                if t == self_dot() {
                    assert(t[0] == self_dot()[0]);
                    assert(t[1] == self_dot()[1]);
                    assert(t[2] == self_dot()[2]);
                    assert(t[3] == self_dot()[3]);
                    assert(t[4] == self_dot()[4]);
                }
            }
        }
        None
    }
}

} // verus!
