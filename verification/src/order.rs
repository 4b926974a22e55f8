//! Ordering of names: the lexicographic order of strings (that of `str`'s
//! `Ord`, which on UTF-8 is the order of code points), and the stable sort by
//! it that arranges the arguments of generated functions and calls.
use vstd::prelude::*;
use crate::text::chars_of;
use vstd::multiset::Multiset;

verus! {

/// `a[k..]` comes before or equals `b[k..]`, given that `a[..k] == b[..k]`.
pub open spec fn lex_le_from(a: Seq<char>, b: Seq<char>, k: int) -> bool
    decreases a.len() - k,
{
    if k < 0 || k >= a.len() {
        true
    } else if k >= b.len() {
        false
    } else if a[k] != b[k] {
        a[k] < b[k]
    } else {
        lex_le_from(a, b, k + 1)
    }
}

/// `a` comes before `b` or equals it, character by character, a proper prefix
/// first.
pub open spec fn lex_le(a: Seq<char>, b: Seq<char>) -> bool {
    lex_le_from(a, b, 0)
}

proof fn lemma_total_from(a: Seq<char>, b: Seq<char>, k: int)
    requires
        0 <= k,
    ensures
        lex_le_from(a, b, k) || lex_le_from(b, a, k),
    decreases a.len() - k,
{
    if k < a.len() && k < b.len() && a[k] == b[k] {
        lemma_total_from(a, b, k + 1);
    }
}

proof fn lemma_antisymmetric_from(a: Seq<char>, b: Seq<char>, k: int)
    requires
        0 <= k <= a.len(),
        k <= b.len(),
        a.subrange(0, k) == b.subrange(0, k),
        lex_le_from(a, b, k),
        lex_le_from(b, a, k),
    ensures
        a == b,
    decreases a.len() - k,
{
    if k < a.len() && k < b.len() {
        assert(a[k] == b[k]);
        assert(a.subrange(0, k + 1) =~= a.subrange(0, k).push(a[k]));
        assert(b.subrange(0, k + 1) =~= b.subrange(0, k).push(b[k]));
        lemma_antisymmetric_from(a, b, k + 1);
    } else {
        assert(a.len() == k && b.len() == k);
        assert(a =~= a.subrange(0, k));
        assert(b =~= b.subrange(0, k));
    }
}

proof fn lemma_transitive_from(a: Seq<char>, b: Seq<char>, c: Seq<char>, k: int)
    requires
        0 <= k,
        lex_le_from(a, b, k),
        lex_le_from(b, c, k),
    ensures
        lex_le_from(a, c, k),
    decreases a.len() - k,
{
    if k < a.len() && k < b.len() && k < c.len() && a[k] == b[k] && b[k] == c[k] {
        lemma_transitive_from(a, b, c, k + 1);
    }
}

/// Of two strings, one comes first or they are equal.
pub proof fn lex_le_total(a: Seq<char>, b: Seq<char>)
    ensures
        lex_le(a, b) || lex_le(b, a),
{
    lemma_total_from(a, b, 0);
}

/// Two strings that each come no later than the other are equal.
pub proof fn lex_le_antisymmetric(a: Seq<char>, b: Seq<char>)
    requires
        lex_le(a, b),
        lex_le(b, a),
    ensures
        a == b,
{
    assert(a.subrange(0, 0) =~= b.subrange(0, 0));
    lemma_antisymmetric_from(a, b, 0);
}

/// The order of strings is transitive.
pub proof fn lex_le_transitive(a: Seq<char>, b: Seq<char>, c: Seq<char>)
    requires
        lex_le(a, b),
        lex_le(b, c),
    ensures
        lex_le(a, c),
{
    lemma_transitive_from(a, b, c, 0);
}

/// Whether `a` comes before `b` or equals it (`a <= b` on `str`).
pub fn str_le(a: &str, b: &str) -> (r: bool)
    ensures
        r == lex_le(a@, b@),
{
    let x = chars_of(a);
    let y = chars_of(b);
    let mut k: usize = 0;
    while k < x.len()
        invariant
            x@ == a@,
            y@ == b@,
            k <= x@.len(),
            lex_le_from(a@, b@, k as int) == lex_le(a@, b@),
        decreases x@.len() - k,
    {
        if k >= y.len() {
            return false;
        }
        if x[k] != y[k] {
            return x[k] < y[k];
        }
        k = k + 1;
    }
    true
}

/// `x` put into `ys` after every element whose key comes no later than its
/// own (one step of a stable insertion sort).
pub open spec fn insert_sorted<A>(ys: Seq<A>, x: A, key: spec_fn(A) -> Seq<char>) -> Seq<A>
    decreases ys.len(),
{
    if ys.len() == 0 {
        seq![x]
    } else if lex_le(key(ys.last()), key(x)) {
        ys.push(x)
    } else {
        insert_sorted(ys.drop_last(), x, key).push(ys.last())
    }
}

/// The stable sort of `xs` by `key` (as `slice::sort_by` with `cmp` on the
/// keys).
pub open spec fn sort_by_key<A>(xs: Seq<A>, key: spec_fn(A) -> Seq<char>) -> Seq<A>
    decreases xs.len(),
{
    if xs.len() == 0 {
        Seq::empty()
    } else {
        insert_sorted(sort_by_key(xs.drop_last(), key), xs.last(), key)
    }
}

/// The keys of `xs` come in order.
pub open spec fn sorted_by_key<A>(xs: Seq<A>, key: spec_fn(A) -> Seq<char>) -> bool {
    forall|i: int, j: int| 0 <= i < j < xs.len() ==> lex_le(key(#[trigger] xs[i]), key(#[trigger] xs[j]))
}

pub open spec fn name_key() -> spec_fn(Seq<char>) -> Seq<char> {
    |x: Seq<char>| x
}

pub open spec fn param_key() -> spec_fn((Seq<char>, Seq<char>)) -> Seq<char> {
    |p: (Seq<char>, Seq<char>)| p.0
}

/// Names in order.
pub open spec fn sort_names(xs: Seq<Seq<char>>) -> Seq<Seq<char>> {
    sort_by_key(xs, name_key())
}

/// Parameters (name, type) in the order of their names, those with equal
/// names in their original order.
pub open spec fn sort_params(xs: Seq<(Seq<char>, Seq<char>)>) -> Seq<(Seq<char>, Seq<char>)> {
    sort_by_key(xs, param_key())
}

proof fn lemma_insert_sorted<A>(ys: Seq<A>, x: A, key: spec_fn(A) -> Seq<char>)
    requires
        sorted_by_key(ys, key),
    ensures
        sorted_by_key(insert_sorted(ys, x, key), key),
        insert_sorted(ys, x, key).to_multiset() =~= ys.to_multiset().insert(x),
        insert_sorted(ys, x, key).len() == ys.len() + 1,
        forall|i: int|
            0 <= i < insert_sorted(ys, x, key).len() ==> (#[trigger] insert_sorted(ys, x, key)[i]
                == x || ys.contains(insert_sorted(ys, x, key)[i])),
    decreases ys.len(),
{
    broadcast use vstd::seq_lib::group_to_multiset_ensures;

    let r = insert_sorted(ys, x, key);
    if ys.len() == 0 {
        assert(ys.to_multiset() =~= Multiset::empty());
        assert(seq![x] =~= Seq::<A>::empty().push(x));
    } else if lex_le(key(ys.last()), key(x)) {
        assert forall|i: int, j: int| 0 <= i < j < r.len() implies lex_le(
            key(#[trigger] r[i]),
            key(#[trigger] r[j]),
        ) by {
            if j == ys.len() {
                if i < ys.len() - 1 {
                    lex_le_transitive(key(ys[i]), key(ys.last()), key(x));
                }
            }
        }
        assert forall|i: int| 0 <= i < r.len() implies (#[trigger] r[i] == x || ys.contains(
            r[i],
        )) by {
            if i < ys.len() {
                assert(ys[i] == r[i]);
            }
        }
    } else {
        let zs = ys.drop_last();
        let last = ys.last();
        assert(sorted_by_key(zs, key)) by {
            assert forall|i: int, j: int| 0 <= i < j < zs.len() implies lex_le(
                key(#[trigger] zs[i]),
                key(#[trigger] zs[j]),
            ) by {
                assert(zs[i] == ys[i] && zs[j] == ys[j]);
            }
        }
        lemma_insert_sorted(zs, x, key);
        let q = insert_sorted(zs, x, key);
        assert(r == q.push(last));
        lex_le_total(key(last), key(x));
        assert forall|i: int| 0 <= i < q.len() implies lex_le(key(#[trigger] q[i]), key(last)) by {
            if q[i] != x {
                assert(zs.contains(q[i]));
                let m = choose|m: int| 0 <= m < zs.len() && zs[m] == q[i];
                assert(ys[m] == zs[m]);
                assert(ys[ys.len() - 1] == last);
            }
        }
        assert forall|i: int, j: int| 0 <= i < j < r.len() implies lex_le(
            key(#[trigger] r[i]),
            key(#[trigger] r[j]),
        ) by {
            if j == q.len() {
                assert(r[i] == q[i]);
            } else {
                assert(r[i] == q[i] && r[j] == q[j]);
            }
        }
        assert(ys =~= zs.push(last));
        assert forall|i: int| 0 <= i < r.len() implies (#[trigger] r[i] == x || ys.contains(
            r[i],
        )) by {
            if i < q.len() {
                assert(r[i] == q[i]);
                if q[i] != x {
                    let m = choose|m: int| 0 <= m < zs.len() && zs[m] == q[i];
                    assert(ys[m] == zs[m]);
                }
            } else {
                assert(ys[ys.len() - 1] == r[i]);
            }
        }
    }
}

/// The sort by key orders the keys.
pub proof fn sort_by_key_is_sorted<A>(xs: Seq<A>, key: spec_fn(A) -> Seq<char>)
    ensures
        sorted_by_key(sort_by_key(xs, key), key),
        sort_by_key(xs, key).to_multiset() =~= xs.to_multiset(),
    decreases xs.len(),
{
    broadcast use vstd::seq_lib::group_to_multiset_ensures;

    if xs.len() == 0 {
        assert(sort_by_key(xs, key) =~= xs);
    } else {
        sort_by_key_is_sorted(xs.drop_last(), key);
        lemma_insert_sorted(sort_by_key(xs.drop_last(), key), xs.last(), key);
        assert(xs =~= xs.drop_last().push(xs.last()));
    }
}

/// Sorting names orders them and keeps each name as often as it occurs.
pub proof fn sort_names_is_sorted_permutation(xs: Seq<Seq<char>>)
    ensures
        sorted_by_key(sort_names(xs), name_key()),
        sort_names(xs).to_multiset() =~= xs.to_multiset(),
{
    sort_by_key_is_sorted(xs, name_key());
}

/// Sorting parameters orders them by name and keeps each parameter as often
/// as it occurs.
pub proof fn sort_params_is_sorted_permutation(xs: Seq<(Seq<char>, Seq<char>)>)
    ensures
        sorted_by_key(sort_params(xs), param_key()),
        sort_params(xs).to_multiset() =~= xs.to_multiset(),
{
    sort_by_key_is_sorted(xs, param_key());
}

/// Sorting names that are already in order leaves them as they are.
pub proof fn sort_names_keeps_sorted(xs: Seq<Seq<char>>)
    requires
        sorted_by_key(xs, name_key()),
    ensures
        sort_names(xs) == xs,
    decreases xs.len(),
{
    if xs.len() > 0 {
        let zs = xs.drop_last();
        assert(sorted_by_key(zs, name_key())) by {
            assert forall|i: int, j: int| 0 <= i < j < zs.len() implies lex_le(
                name_key()(#[trigger] zs[i]),
                name_key()(#[trigger] zs[j]),
            ) by {
                assert(zs[i] == xs[i] && zs[j] == xs[j]);
            }
        }
        sort_names_keeps_sorted(zs);
        if zs.len() > 0 {
            assert(zs.last() == xs[xs.len() - 2]);
            assert(lex_le(name_key()(xs[xs.len() - 2]), name_key()(xs[xs.len() - 1])));
        }
        assert(xs =~= zs.push(xs.last()));
    }
}

/// Sorts names in place (`sort_by` with `str::cmp`): the result is the stable
/// sort of the given names.
pub fn sort_names_in_place(names: &mut Vec<String>)
    ensures
        final(names).deep_view() == sort_names(old(names).deep_view()),
{
    let mut rest: Vec<String> = Vec::new();
    std::mem::swap(&mut rest, names);
    let ghost all = rest.deep_view();
    let ghost mut done: Seq<Seq<char>> = Seq::empty();
    let mut out: Vec<String> = Vec::new();
    while rest.len() > 0
        invariant
            all == done + rest.deep_view(),
            out.deep_view() == sort_names(done),
        decreases rest.len(),
    {
        let ghost before = rest.deep_view();
        let x = rest.remove(0);
        proof {
            assert(before[0] == x.deep_view());
            assert(rest.deep_view() =~= before.drop_first());
            assert(all =~= done.push(x.deep_view()) + rest.deep_view());
            assert(done.push(x.deep_view()).drop_last() =~= done);
            done = done.push(x.deep_view());
        }
        insert_name(&mut out, x);
    }
    assert(done =~= all);
    *names = out;
}

/// One step of the insertion sort of names.
fn insert_name(out: &mut Vec<String>, x: String)
    ensures
        final(out).deep_view() == insert_sorted(old(out).deep_view(), x@, name_key()),
{
    let ghost ys = out.deep_view();
    let ghost xv = x@;
    let mut held: Vec<String> = Vec::new();
    while out.len() > 0 && !str_le(out[out.len() - 1].as_str(), x.as_str())
        invariant
            x@ == xv,
            insert_sorted(ys, xv, name_key()) == insert_sorted(out.deep_view(), xv, name_key())
                + held.deep_view().reverse(),
        decreases out.len(),
    {
        let ghost o = out.deep_view();
        let ghost h = held.deep_view();
        let y = out.pop().unwrap();
        proof {
            assert(o =~= out.deep_view().push(y.deep_view()));
            assert(o.drop_last() =~= out.deep_view());
            assert(held.deep_view().push(y.deep_view()).reverse() =~= seq![y.deep_view()]
                + h.reverse());
        }
        held.push(y);
        proof {
            assert(insert_sorted(o, xv, name_key()) == insert_sorted(out.deep_view(), xv, name_key()).push(o.last()));
            assert(insert_sorted(ys, xv, name_key()) =~= insert_sorted(out.deep_view(), xv, name_key())
                + held.deep_view().reverse());
        }
    }
    let ghost o = out.deep_view();
    out.push(x);
    assert(out.deep_view() =~= insert_sorted(o, xv, name_key()));
    while held.len() > 0
        invariant
            insert_sorted(ys, xv, name_key()) == out.deep_view() + held.deep_view().reverse(),
        decreases held.len(),
    {
        let ghost h = held.deep_view();
        let ghost o2 = out.deep_view();
        let y = held.pop().unwrap();
        proof {
            assert(h =~= held.deep_view().push(y.deep_view()));
            assert(h.reverse() =~= seq![y.deep_view()] + held.deep_view().reverse());
        }
        out.push(y);
        assert(out.deep_view() =~= o2.push(y.deep_view()));
        assert(o2 + h.reverse() =~= out.deep_view() + held.deep_view().reverse());
    }
    assert(held.deep_view().reverse() =~= Seq::<Seq<char>>::empty());
    assert(out.deep_view() =~= out.deep_view() + held.deep_view().reverse());
}

/// Sorts parameters in place by name (`sort_by` on the names with `str::cmp`):
/// the result is the stable sort of the given parameters.
pub fn sort_params_in_place(names: &mut Vec<(String, String)>)
    ensures
        final(names).deep_view() == sort_params(old(names).deep_view()),
{
    let mut rest: Vec<(String, String)> = Vec::new();
    std::mem::swap(&mut rest, names);
    let ghost all = rest.deep_view();
    let ghost mut done: Seq<(Seq<char>, Seq<char>)> = Seq::empty();
    let mut out: Vec<(String, String)> = Vec::new();
    while rest.len() > 0
        invariant
            all == done + rest.deep_view(),
            out.deep_view() == sort_params(done),
        decreases rest.len(),
    {
        let ghost before = rest.deep_view();
        let x = rest.remove(0);
        proof {
            assert(before[0] == x.deep_view());
            assert(rest.deep_view() =~= before.drop_first());
            assert(all =~= done.push(x.deep_view()) + rest.deep_view());
            assert(done.push(x.deep_view()).drop_last() =~= done);
            done = done.push(x.deep_view());
        }
        insert_param(&mut out, x);
    }
    assert(done =~= all);
    *names = out;
}

/// One step of the insertion sort of parameters.
fn insert_param(out: &mut Vec<(String, String)>, x: (String, String))
    ensures
        final(out).deep_view() == insert_sorted(old(out).deep_view(), x.deep_view(), param_key()),
{
    let ghost ys = out.deep_view();
    let ghost xv = x.deep_view();
    let mut held: Vec<(String, String)> = Vec::new();
    while out.len() > 0 && !str_le(out[out.len() - 1].0.as_str(), x.0.as_str())
        invariant
            x.deep_view() == xv,
            insert_sorted(ys, xv, param_key()) == insert_sorted(out.deep_view(), xv, param_key())
                + held.deep_view().reverse(),
        decreases out.len(),
    {
        let ghost o = out.deep_view();
        let ghost h = held.deep_view();
        let y = out.pop().unwrap();
        proof {
            assert(o =~= out.deep_view().push(y.deep_view()));
            assert(o.drop_last() =~= out.deep_view());
            assert(held.deep_view().push(y.deep_view()).reverse() =~= seq![y.deep_view()]
                + h.reverse());
        }
        held.push(y);
        proof {
            assert(insert_sorted(o, xv, param_key()) == insert_sorted(out.deep_view(), xv, param_key()).push(o.last()));
            assert(insert_sorted(ys, xv, param_key()) =~= insert_sorted(out.deep_view(), xv, param_key())
                + held.deep_view().reverse());
        }
    }
    let ghost o = out.deep_view();
    out.push(x);
    assert(out.deep_view() =~= insert_sorted(o, xv, param_key()));
    while held.len() > 0
        invariant
            insert_sorted(ys, xv, param_key()) == out.deep_view() + held.deep_view().reverse(),
        decreases held.len(),
    {
        let ghost h = held.deep_view();
        let ghost o2 = out.deep_view();
        let y = held.pop().unwrap();
        proof {
            assert(h =~= held.deep_view().push(y.deep_view()));
            assert(h.reverse() =~= seq![y.deep_view()] + held.deep_view().reverse());
        }
        out.push(y);
        assert(out.deep_view() =~= o2.push(y.deep_view()));
        assert(o2 + h.reverse() =~= out.deep_view() + held.deep_view().reverse());
    }
    assert(held.deep_view().reverse() =~= Seq::<(Seq<char>, Seq<char>)>::empty());
    assert(out.deep_view() =~= out.deep_view() + held.deep_view().reverse());
}

} // verus!
