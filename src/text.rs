//! Character-sequence helpers shared by the identifier, template and
//! permission code.
use vstd::prelude::*;

use crate::keyed::{distinct_ids, ids_of};

verus! {

broadcast use vstd::string::group_string_axioms;

/// The characters of `s`, in order.
pub fn chars_of(s: &str) -> (r: Vec<char>)
    ensures
        r@ == s@,
{
    let mut v: Vec<char> = Vec::new();
    for c in it: s.chars()
        invariant
            it.seq() == s@,
            v@ == it.seq().take(it.index() as int),
    {
        v.push(c);
    }
    v
}

/// Relies on `String`'s `FromIterator<&char>`: the string holds the given
/// characters in order.
#[verifier::external_body]
pub(crate) fn string_of(v: &Vec<char>) -> (r: String)
    ensures
        r@ == v@,
{
    v.iter().collect()
}

/// Appends the characters of `s` to `out`.
pub fn push_text(out: &mut Vec<char>, s: &str)
    ensures
        final(out)@ == old(out)@ + s@,
{
    let v = chars_of(s);
    push_chars(out, &v);
}

/// Appends the characters of `v` to `out`.
pub fn push_chars(out: &mut Vec<char>, v: &Vec<char>)
    ensures
        final(out)@ == old(out)@ + v@,
{
    let ghost start = out@;
    let mut i: usize = 0;
    while i < v.len()
        invariant
            i <= v.len(),
            out@ == start + v@.take(i as int),
        decreases v.len() - i,
    {
        out.push(v[i]);
        i = i + 1;
        assert(v@.take(i as int) =~= v@.take(i - 1) + seq![v@[i - 1]]);
    }
    assert(v@.take(i as int) =~= v@);
}

/// Whether two strings hold the same characters.
pub fn same_text(a: &str, b: &str) -> (r: bool)
    ensures
        r == (a@ == b@),
{
    let av = chars_of(a);
    let bv = chars_of(b);
    same_chars(&av, &bv)
}

/// Whether two character vectors are equal.
pub fn same_chars(a: &Vec<char>, b: &Vec<char>) -> (r: bool)
    ensures
        r == (a@ == b@),
{
    if a.len() != b.len() {
        return false;
    }
    let mut i: usize = 0;
    while i < a.len()
        invariant
            a.len() == b.len(),
            i <= a.len(),
            forall|k: int| 0 <= k < i ==> a@[k] == b@[k],
        decreases a.len() - i,
    {
        if a[i] != b[i] {
            return false;
        }
        i = i + 1;
    }
    assert(a@ =~= b@);
    true
}

/// `s` with every non-overlapping occurrence of `p` replaced by `r`, scanning
/// from the left.
pub open spec fn replace_all(s: Seq<char>, p: Seq<char>, r: Seq<char>) -> Seq<char>
    decreases s.len(),
{
    if p.len() == 0 || s.len() < p.len() {
        s
    } else if s.take(p.len() as int) == p {
        r + replace_all(s.skip(p.len() as int), p, r)
    } else {
        seq![s[0]] + replace_all(s.skip(1), p, r)
    }
}

/// Whether `p` occurs in `v` at position `i`.
fn occurs_at(v: &Vec<char>, i: usize, p: &Vec<char>) -> (r: bool)
    requires
        i + p.len() <= v.len(),
    ensures
        r == (v@.subrange(i as int, i + p.len()) == p@),
{
    let mut k: usize = 0;
    while k < p.len()
        invariant
            i + p.len() <= v.len(),
            k <= p.len(),
            forall|j: int| 0 <= j < k ==> v@[i + j] == p@[j],
        decreases p.len() - k,
    {
        if v[i + k] != p[k] {
            assert(v@.subrange(i as int, i + p.len())[k as int] != p@[k as int]);
            return false;
        }
        k = k + 1;
    }
    assert(v@.subrange(i as int, i + p.len()) =~= p@);
    true
}

/// Replaces every non-overlapping occurrence of `from` in `s` by `to`.
pub fn replace_text(s: &str, from: &str, to: &str) -> (r: String)
    requires
        from@.len() > 0,
    ensures
        r@ == replace_all(s@, from@, to@),
{
    let sv = chars_of(s);
    let pv = chars_of(from);
    let rv = chars_of(to);
    let mut out: Vec<char> = Vec::new();
    let mut i: usize = 0;
    assert(sv@.skip(0) =~= sv@);
    assert(out@ + replace_all(s@, from@, to@) =~= replace_all(s@, from@, to@));
    while i < sv.len()
        invariant
            i <= sv.len(),
            pv@ == from@,
            rv@ == to@,
            sv@ == s@,
            pv@.len() > 0,
            replace_all(s@, from@, to@) == out@ + replace_all(sv@.skip(i as int), pv@, rv@),
        decreases sv.len() - i,
    {
        let ghost rest = sv@.skip(i as int);
        if pv.len() <= sv.len() - i && occurs_at(&sv, i, &pv) {
            assert(rest.take(pv@.len() as int) =~= sv@.subrange(i as int, i + pv@.len()));
            assert(rest.skip(pv@.len() as int) =~= sv@.skip(i + pv@.len()));
            push_chars(&mut out, &rv);
            i = i + pv.len();
        } else {
            if pv.len() <= sv.len() - i {
                assert(rest.take(pv@.len() as int) =~= sv@.subrange(i as int, i + pv@.len()));
            } else {
                assert(rest.skip(1).len() < pv@.len());
                assert(rest =~= seq![rest[0]] + rest.skip(1));
            }
            assert(rest.skip(1) =~= sv@.skip(i + 1));
            out.push(sv[i]);
            i = i + 1;
        }
    }
    assert(sv@.skip(i as int) =~= Seq::<char>::empty());
    assert(out@ + Seq::<char>::empty() =~= out@);
    string_of(&out)
}

/// The items joined with `sep` between neighbours.
pub open spec fn join_with(items: Seq<Seq<char>>, sep: Seq<char>) -> Seq<char>
    decreases items.len(),
{
    if items.len() == 0 {
        Seq::empty()
    } else if items.len() == 1 {
        items[0]
    } else {
        join_with(items.drop_last(), sep) + sep + items.last()
    }
}

/// The views of a list of strings.
pub open spec fn texts(v: Seq<String>) -> Seq<Seq<char>> {
    v.map_values(|s: String| s@)
}

/// The strings of `items` joined with `sep` between neighbours.
pub fn join_texts(items: &Vec<String>, sep: &str) -> (r: String)
    ensures
        r@ == join_with(texts(items@), sep@),
{
    let ghost all = texts(items@);
    let mut out: Vec<char> = Vec::new();
    if items.len() == 0 {
        return string_of(&out);
    }
    push_text(&mut out, items[0].as_str());
    let mut i: usize = 1;
    assert(all.take(1).drop_last() =~= Seq::<Seq<char>>::empty());
    while i < items.len()
        invariant
            1 <= i <= items.len(),
            all == texts(items@),
            out@ == join_with(all.take(i as int), sep@),
        decreases items.len() - i,
    {
        push_text(&mut out, sep);
        push_text(&mut out, items[i].as_str());
        i = i + 1;
        assert(all.take(i as int).drop_last() =~= all.take(i - 1));
    }
    assert(all.take(i as int) =~= all);
    string_of(&out)
}

/// The order of `str`: by character, a proper prefix first.
pub open spec fn lex_lt(a: Seq<char>, b: Seq<char>) -> bool
    decreases a.len(),
{
    if a.len() == 0 {
        b.len() > 0
    } else if b.len() == 0 {
        false
    } else if a[0] != b[0] {
        a[0] < b[0]
    } else {
        lex_lt(a.drop_first(), b.drop_first())
    }
}

pub proof fn lemma_lex_total(a: Seq<char>, b: Seq<char>)
    requires
        a != b,
    ensures
        lex_lt(a, b) || lex_lt(b, a),
    decreases a.len(),
{
    if a.len() > 0 && b.len() > 0 && a[0] == b[0] {
        assert(a.drop_first() != b.drop_first()) by {
            if a.drop_first() == b.drop_first() {
                assert(a =~= seq![a[0]] + a.drop_first());
                assert(b =~= seq![b[0]] + b.drop_first());
            }
        }
        lemma_lex_total(a.drop_first(), b.drop_first());
    } else if a.len() == 0 && b.len() == 0 {
        assert(a =~= b);
    }
}

pub fn text_lt(a: &str, b: &str) -> (r: bool)
    ensures
        r == lex_lt(a@, b@),
{
    let av = crate::text::chars_of(a);
    let bv = crate::text::chars_of(b);
    let mut i: usize = 0;
    assert(av@.skip(0) =~= av@);
    assert(bv@.skip(0) =~= bv@);
    while i < av.len() && i < bv.len() && av[i] == bv[i]
        invariant
            i <= av.len(),
            i <= bv.len(),
            lex_lt(a@, b@) == lex_lt(av@.skip(i as int), bv@.skip(i as int)),
            av@ == a@,
            bv@ == b@,
        decreases av.len() - i,
    {
        assert(av@.skip(i as int).drop_first() =~= av@.skip(i + 1));
        assert(bv@.skip(i as int).drop_first() =~= bv@.skip(i + 1));
        i = i + 1;
    }
    if i == av.len() {
        i < bv.len()
    } else if i == bv.len() {
        false
    } else {
        av[i] < bv[i]
    }
}

/// Each string comes before the next.
pub open spec fn ascending(s: Seq<Seq<char>>) -> bool {
    forall|i: int| 0 <= i < s.len() - 1 ==> lex_lt(#[trigger] s[i], s[i + 1])
}

/// The ids of `v` in ascending order.
pub fn sorted_ids(v: &Vec<String>) -> (r: Vec<String>)
    requires
        distinct_ids(v@),
    ensures
        r.len() == v.len(),
        distinct_ids(r@),
        ids_of(r@) == ids_of(v@),
        ascending(texts(r@)),
{
    let mut r: Vec<String> = Vec::new();
    let mut i: usize = 0;
    while i < v.len()
        invariant
            i <= v.len(),
            r.len() == i,
            distinct_ids(v@),
            distinct_ids(r@),
            ids_of(r@) == ids_of(v@.take(i as int)),
            ascending(texts(r@)),
        decreases v.len() - i,
    {
        let x = &v[i];
        let mut k: usize = 0;
        while k < r.len() && text_lt(r[k].as_str(), x.as_str())
            invariant
                k <= r.len(),
                forall|j: int| 0 <= j < k ==> lex_lt((#[trigger] r@[j])@, x@),
            decreases r.len() - k,
        {
            k = k + 1;
        }
        proof {
            assert(!ids_of(v@.take(i as int)).contains(x@)) by {
                if ids_of(v@.take(i as int)).contains(x@) {
                    let j = choose|j: int| 0 <= j < v@.take(i as int).len() && v@.take(i as int)[j]@ == x@;
                    assert(v@[j]@ != v@[i as int]@);
                }
            }
            if k < r.len() {
                assert(r@[k as int]@ != x@) by {
                    assert(ids_of(r@).contains(r@[k as int]@));
                }
                lemma_lex_total(r@[k as int]@, x@);
            }
        }
        let ghost before = r@;
        r.insert(k, x.clone());
        proof {
            assert(r@ == before.insert(k as int, *x));
            assert(ids_of(r@) =~= ids_of(v@.take(i + 1))) by {
                let t0 = v@.take(i as int);
                let t1 = v@.take(i + 1);
                assert forall|y: Seq<char>| ids_of(r@).contains(y) implies ids_of(t1).contains(y) by {
                    let j = choose|j: int| 0 <= j < r@.len() && r@[j]@ == y;
                    if j == k {
                        assert(t1[i as int] == v@[i as int]);
                    } else {
                        let j0 = if j < k { j } else { j - 1 };
                        assert(r@[j] == before[j0]);
                        assert(ids_of(t0).contains(y));
                        let q = choose|q: int| 0 <= q < t0.len() && t0[q]@ == y;
                        assert(t1[q] == t0[q]);
                    }
                }
                assert forall|y: Seq<char>| ids_of(t1).contains(y) implies ids_of(r@).contains(y) by {
                    let q = choose|q: int| 0 <= q < t1.len() && t1[q]@ == y;
                    if q == i {
                        assert(r@[k as int] == *x);
                    } else {
                        assert(t0[q] == t1[q]);
                        assert(ids_of(before).contains(y));
                        let j = choose|j: int| 0 <= j < before.len() && before[j]@ == y;
                        if j < k {
                            assert(r@[j] == before[j]);
                        } else {
                            assert(r@[j + 1] == before[j]);
                        }
                    }
                }
            }
            assert(distinct_ids(r@)) by {
                assert forall|a: int, b: int| 0 <= a < b < r@.len() implies r@[a]@ != r@[b]@ by {
                    let a0 = if a < k { a } else { a - 1 };
                    let b0 = if b < k { b } else { b - 1 };
                    if a != k && b != k {
                        assert(r@[a] == before[a0]);
                        assert(r@[b] == before[b0]);
                    } else if a == k {
                        assert(r@[b] == before[b0]);
                        assert(ids_of(before).contains(before[b0]@));
                    } else {
                        assert(r@[a] == before[a0]);
                        assert(ids_of(before).contains(before[a0]@));
                    }
                }
            }
            assert(ascending(texts(r@))) by {
                assert forall|j: int| 0 <= j < texts(r@).len() - 1 implies lex_lt(#[trigger] texts(r@)[j], texts(r@)[j + 1]) by {
                    assert(texts(before)[0] == before[0]@ || before.len() == 0);
                    if j + 1 < k {
                        assert(r@[j] == before[j]);
                        assert(r@[j + 1] == before[j + 1]);
                        assert(lex_lt(texts(before)[j], texts(before)[j + 1]));
                    } else if j + 1 == k {
                        assert(r@[j] == before[j]);
                    } else if j == k {
                        assert(r@[j + 1] == before[j]);
                    } else {
                        assert(r@[j] == before[j - 1]);
                        assert(r@[j + 1] == before[j]);
                        assert(lex_lt(texts(before)[j - 1], texts(before)[j]));
                    }
                }
            }
        }
        i = i + 1;
    }
    assert(v@.take(i as int) =~= v@);
    r
}

/// Whether `p` occurs somewhere in `t`.
pub open spec fn occurs_in(t: Seq<char>, p: Seq<char>) -> bool {
    exists|i: int| 0 <= i && i + p.len() <= t.len() && #[trigger] t.subrange(i, i + p.len()) == p
}

/// Text without `{` or `}`.
pub open spec fn brace_free(r: Seq<char>) -> bool {
    forall|i: int| 0 <= i < r.len() ==> #[trigger] r[i] != '{' && r[i] != '}'
}

/// A placeholder shape: opens with `{` and closes with `}`.
pub open spec fn braced(p: Seq<char>) -> bool {
    p.len() >= 2 && p[0] == '{' && p.last() == '}'
}

/// Where the first `k` characters of a replacement result end in `}`, and no
/// replacement text holds a brace, those characters were not replaced.
proof fn lemma_unreplaced_prefix(u: Seq<char>, p: Seq<char>, r: Seq<char>, k: int, w: Seq<char>)
    requires
        p.len() > 0,
        brace_free(r),
        1 <= k <= r.len(),
        w.len() == k,
        w.last() == '}',
        replace_all(u, p, r).len() >= k,
        replace_all(u, p, r).take(k) == w,
    ensures
        u.len() >= k,
        u.take(k) == w,
    decreases u.len(),
{
    let rr = replace_all(u, p, r);
    if u.len() < p.len() {
    } else if u.take(p.len() as int) == p {
        assert(rr[k - 1] == r[k - 1]);
        assert(w[k - 1] == rr.take(k)[k - 1]);
    } else {
        let rest = replace_all(u.skip(1), p, r);
        assert(rr == seq![u[0]] + rest);
        if k > 1 {
            assert(rest.take(k - 1) =~= w.skip(1));
            lemma_unreplaced_prefix(u.skip(1), p, r, k - 1, w.skip(1));
            assert(u.take(k) =~= seq![u[0]] + u.skip(1).take(k - 1));
            assert(w =~= seq![w[0]] + w.skip(1));
            assert(w[0] == rr.take(k)[0]);
        } else {
            assert(u.take(k) =~= w);
        }
    }
}

/// Replacing every `p` by a brace-free text at least as long leaves no `p`.
pub proof fn lemma_replaced_pattern_gone(s: Seq<char>, p: Seq<char>, r: Seq<char>)
    requires
        braced(p),
        brace_free(r),
        r.len() >= p.len(),
    ensures
        !occurs_in(replace_all(s, p, r), p),
    decreases s.len(),
{
    lemma_replacement_keeps_absent(s, p, r, p);
}

/// Replacing `p` by a brace-free text introduces no `q`, for a `q` of the
/// placeholder shape no longer than that text; every `q` left is one that
/// `s` held and that was not itself replaced.
pub proof fn lemma_replacement_keeps_absent(s: Seq<char>, p: Seq<char>, r: Seq<char>, q: Seq<char>)
    requires
        p.len() > 0,
        braced(q),
        brace_free(r),
        r.len() >= q.len(),
        q == p || !occurs_in(s, q),
    ensures
        !occurs_in(replace_all(s, p, r), q),
    decreases s.len(),
{
    let rr = replace_all(s, p, r);
    let n = q.len() as int;
    if occurs_in(rr, q) {
        let i = choose|i: int| 0 <= i && i + n <= rr.len() && #[trigger] rr.subrange(i, i + n) == q;
        if s.len() < p.len() {
            if q == p {
                assert(rr.len() < n);
            } else {
                assert(occurs_in(s, q));
            }
        } else if s.take(p.len() as int) == p {
            let rest = replace_all(s.skip(p.len() as int), p, r);
            assert(rr == r + rest);
            if i < r.len() {
                assert(rr[i] == r[i]);
                assert(rr.subrange(i, i + n)[0] == q[0]);
            } else {
                assert(rest.subrange(i - r.len(), i - r.len() + n) =~= rr.subrange(i, i + n));
                if q != p && occurs_in(s.skip(p.len() as int), q) {
                    let j = choose|j: int| 0 <= j && j + n <= s.skip(p.len() as int).len() && #[trigger] s.skip(p.len() as int).subrange(j, j + n) == q;
                    assert(s.subrange(j + p.len(), j + p.len() + n) =~= s.skip(p.len() as int).subrange(j, j + n));
                }
                lemma_replacement_keeps_absent(s.skip(p.len() as int), p, r, q);
            }
        } else {
            let rest = replace_all(s.skip(1), p, r);
            assert(rr == seq![s[0]] + rest);
            if i >= 1 {
                assert(rest.subrange(i - 1, i - 1 + n) =~= rr.subrange(i, i + n));
                if q != p && occurs_in(s.skip(1), q) {
                    let j = choose|j: int| 0 <= j && j + n <= s.skip(1).len() && #[trigger] s.skip(1).subrange(j, j + n) == q;
                    assert(s.subrange(j + 1, j + 1 + n) =~= s.skip(1).subrange(j, j + n));
                }
                lemma_replacement_keeps_absent(s.skip(1), p, r, q);
            } else {
                assert(rest.take(n - 1) =~= q.skip(1)) by {
                    assert forall|k: int| 0 <= k < n - 1 implies rest.take(n - 1)[k] == q.skip(1)[k] by {
                        assert(rr.subrange(0, n)[k + 1] == rr[k + 1]);
                    }
                }
                lemma_unreplaced_prefix(s.skip(1), p, r, n - 1, q.skip(1));
                assert(rr.subrange(0, n)[0] == s[0]);
                assert(s.take(n) =~= seq![s[0]] + s.skip(1).take(n - 1));
                assert(q =~= seq![q[0]] + q.skip(1));
                assert(s.subrange(0, n) =~= s.take(n));
                if q == p {
                    assert(s.take(p.len() as int) == p);
                } else {
                    assert(occurs_in(s, q));
                }
            }
        }
    }
}

/// A placeholder of the shape `{{NAME}}`: two braces open it, two close it,
/// and none stands between.
pub open spec fn tight(p: Seq<char>) -> bool {
    &&& p.len() >= 5
    &&& p[0] == '{'
    &&& p[1] == '{'
    &&& p[p.len() - 2] == '}'
    &&& p[p.len() - 1] == '}'
    &&& forall|i: int| 2 <= i < p.len() - 2 ==> #[trigger] p[i] != '{' && p[i] != '}'
}

/// `p` stands at `j` in `s`.
pub open spec fn at(s: Seq<char>, p: Seq<char>, j: int) -> bool {
    0 <= j && j + p.len() <= s.len() && s.subrange(j, j + p.len()) == p
}

/// Two placeholders of that shape that overlap in a text are one.
pub proof fn lemma_tight_overlap(s: Seq<char>, p: Seq<char>, j: int, q: Seq<char>, k: int)
    requires
        tight(p),
        tight(q),
        at(s, p, j),
        at(s, q, k),
        j < k + q.len(),
        k < j + p.len(),
    ensures
        j == k,
        p == q,
{
    assert(forall|t: int| 0 <= t < p.len() ==> s[j + t] == #[trigger] p[t]) by {
        assert forall|t: int| 0 <= t < p.len() implies s[j + t] == #[trigger] p[t] by {
            assert(s.subrange(j, j + p.len())[t] == s[j + t]);
        }
    }
    assert(forall|t: int| 0 <= t < q.len() ==> s[k + t] == #[trigger] q[t]) by {
        assert forall|t: int| 0 <= t < q.len() implies s[k + t] == #[trigger] q[t] by {
            assert(s.subrange(k, k + q.len())[t] == s[k + t]);
        }
    }
    if j < k {
        assert(p[k - j] == q[0]);
        if k - j >= 2 {
            assert(p[k - j] != '{' || k - j >= p.len() - 2);
        }
        assert(p[k - j + 1] == q[1]);
    } else if k < j {
        assert(q[j - k] == p[0]);
        assert(q[j - k + 1] == p[1]);
    } else {
        if p.len() < q.len() {
            assert(q[p.len() - 1] == p[p.len() - 1]);
            assert(q[p.len() - 2] == p[p.len() - 2]);
        } else if q.len() < p.len() {
            assert(p[q.len() - 1] == q[q.len() - 1]);
            assert(p[q.len() - 2] == q[q.len() - 2]);
        } else {
            assert(p =~= q);
        }
    }
}

/// Where `p` does not occur, replacing it changes nothing.
pub proof fn lemma_replace_absent(u: Seq<char>, p: Seq<char>, r: Seq<char>)
    requires
        p.len() > 0,
        !occurs_in(u, p),
    ensures
        replace_all(u, p, r) == u,
    decreases u.len(),
{
    if u.len() >= p.len() {
        if u.take(p.len() as int) == p {
            assert(u.subrange(0, (0 + p.len()) as int) == p);
            assert(occurs_in(u, p));
        } else {
            if occurs_in(u.skip(1), p) {
                let j = choose|j: int| 0 <= j && j + p.len() <= u.skip(1).len() && #[trigger] u.skip(1).subrange(j, j + p.len()) == p;
                assert(u.subrange(j + 1, j + 1 + p.len()) =~= u.skip(1).subrange(j, j + p.len()));
            }
            lemma_replace_absent(u.skip(1), p, r);
            assert(u =~= seq![u[0]] + u.skip(1));
        }
    }
}

/// Where no `p` straddles position `k`, the text can be cut there and each
/// part replaced on its own.
pub proof fn lemma_replace_split(s: Seq<char>, p: Seq<char>, r: Seq<char>, k: int)
    requires
        p.len() > 0,
        0 <= k <= s.len(),
        forall|j: int| 0 <= j < k && k < j + p.len() ==> !at(s, p, j),
    ensures
        replace_all(s, p, r) == replace_all(s.take(k), p, r) + replace_all(s.skip(k), p, r),
    decreases s.len(),
{
    let n = p.len() as int;
    if k == 0 {
        assert(s.take(0) =~= Seq::<char>::empty());
        assert(s.skip(0) =~= s);
    } else if s.len() < n {
        assert(s.take(k) + s.skip(k) =~= s);
    } else if s.take(n) == p {
        assert(at(s, p, 0));
        let t = s.skip(n);
        assert forall|j: int| 0 <= j < k - n && k - n < j + n implies !at(t, p, j) by {
            if at(t, p, j) {
                assert(s.subrange(j + n, j + n + n) =~= t.subrange(j, j + n));
                assert(at(s, p, j + n));
            }
        }
        lemma_replace_split(t, p, r, k - n);
        assert(s.take(k).take(n) =~= s.take(n));
        assert(s.take(k).skip(n) =~= t.take(k - n));
        assert(t.skip(k - n) =~= s.skip(k));
    } else {
        let t = s.skip(1);
        assert forall|j: int| 0 <= j < k - 1 && k - 1 < j + n implies !at(t, p, j) by {
            if at(t, p, j) {
                assert(s.subrange(j + 1, j + 1 + n) =~= t.subrange(j, j + n));
                assert(at(s, p, j + 1));
            }
        }
        lemma_replace_split(t, p, r, k - 1);
        assert(t.skip(k - 1) =~= s.skip(k));
        if k < n {
            assert(replace_all(s.take(k), p, r) == s.take(k));
            assert(replace_all(t.take(k - 1), p, r) == t.take(k - 1));
            assert(s.take(k) =~= seq![s[0]] + t.take(k - 1));
        } else {
            assert(s.take(k).take(n) =~= s.take(n));
            assert(s.take(k).skip(1) =~= t.take(k - 1));
        }
    }
}

/// Replacing `p` keeps a stretch `z` of the text that no `p` overlaps.
pub proof fn lemma_replace_keeps(s: Seq<char>, p: Seq<char>, r: Seq<char>, k: int, z: Seq<char>)
    requires
        p.len() > 0,
        at(s, z, k),
        forall|j: int| j < k + z.len() && k < j + p.len() ==> !at(s, p, j),
    ensures
        occurs_in(replace_all(s, p, r), z),
{
    let n = p.len() as int;
    let m = z.len() as int;
    lemma_replace_split(s, p, r, k);
    let u = s.skip(k);
    assert forall|j: int| 0 <= j < m && m < j + n implies !at(u, p, j) by {
        if at(u, p, j) {
            assert(s.subrange(k + j, k + j + n) =~= u.subrange(j, j + n));
            assert(at(s, p, k + j));
        }
    }
    lemma_replace_split(u, p, r, m);
    assert(u.take(m) =~= z);
    if occurs_in(z, p) {
        let j = choose|j: int| 0 <= j && j + n <= z.len() && #[trigger] z.subrange(j, j + n) == p;
        assert(s.subrange(k + j, k + j + n) =~= z.subrange(j, j + n));
        assert(at(s, p, k + j));
    }
    lemma_replace_absent(z, p, r);
    let out = replace_all(s, p, r);
    let a = replace_all(s.take(k), p, r);
    assert(out == a + (z + replace_all(u.skip(m), p, r)));
    assert(out.subrange(a.len() as int, a.len() + m) =~= z);
}

proof fn lemma_skip_at(s: Seq<char>, p: Seq<char>, k0: int, j: int)
    requires
        0 <= k0 <= s.len(),
        at(s.skip(k0), p, j),
    ensures
        at(s, p, k0 + j),
{
    assert(s.subrange(k0 + j, k0 + j + p.len()) =~= s.skip(k0).subrange(j, j + p.len()));
}

/// Replacing `p` turns a stretch `x + p + y`, where no other `p` overlaps, into
/// `x + r + y`.
#[verifier::rlimit(40)]
pub proof fn lemma_replace_in_context(s: Seq<char>, p: Seq<char>, r: Seq<char>, k: int, x: Seq<char>, y: Seq<char>)
    requires
        p.len() > 0,
        at(s, x + p + y, k),
        forall|j: int|
            j < k + x.len() + p.len() + y.len() && k < j + p.len() && at(s, p, j) ==> j == k + x.len(),
    ensures
        occurs_in(replace_all(s, p, r), x + r + y),
{
    let n = p.len() as int;
    let c1 = x.len() as int;
    let c3 = y.len() as int;
    let w = x + p + y;
    lemma_replace_split(s, p, r, k);
    let u = s.skip(k);
    assert(u.take(w.len() as int) =~= w) by {
        assert(u.take(w.len() as int) =~= s.subrange(k, k + w.len()));
    }
    assert forall|j: int| 0 <= j < c1 && c1 < j + n implies !at(u, p, j) by {
        if at(u, p, j) {
            lemma_skip_at(s, p, k, j);
        }
    }
    lemma_replace_split(u, p, r, c1);
    let u2 = u.skip(c1);
    assert forall|j: int| 0 <= j < n && n < j + n implies !at(u2, p, j) by {
        if at(u2, p, j) {
            lemma_skip_at(u, p, c1, j);
            lemma_skip_at(s, p, k, c1 + j);
        }
    }
    lemma_replace_split(u2, p, r, n);
    let u3 = u2.skip(n);
    assert forall|j: int| 0 <= j < c3 && c3 < j + n implies !at(u3, p, j) by {
        if at(u3, p, j) {
            lemma_skip_at(u2, p, n, j);
            lemma_skip_at(u, p, c1, n + j);
            lemma_skip_at(s, p, k, c1 + n + j);
        }
    }
    lemma_replace_split(u3, p, r, c3);
    assert(u.take(c1) =~= x) by {
        assert(u.take(c1) =~= u.take(w.len() as int).take(c1));
        assert(w.take(c1) =~= x);
    }
    assert(u2.take(n) =~= p) by {
        assert(u2.take(n) =~= u.take(w.len() as int).subrange(c1, c1 + n));
        assert(w.subrange(c1, c1 + n) =~= p);
    }
    assert(u3.take(c3) =~= y) by {
        assert(u3.take(c3) =~= u.take(w.len() as int).subrange(c1 + n, c1 + n + c3));
        assert(w.subrange(c1 + n, c1 + n + c3) =~= y);
    }
    if occurs_in(x, p) {
        let j = choose|j: int| 0 <= j && j + n <= x.len() && #[trigger] x.subrange(j, j + n) == p;
        assert(u.take(c1).subrange(j, j + n) =~= u.subrange(j, j + n));
        lemma_skip_at(s, p, k, j);
    }
    if occurs_in(y, p) {
        let j = choose|j: int| 0 <= j && j + n <= y.len() && #[trigger] y.subrange(j, j + n) == p;
        assert(u3.take(c3).subrange(j, j + n) =~= u3.subrange(j, j + n));
        lemma_skip_at(u2, p, n, j);
        lemma_skip_at(u, p, c1, n + j);
        lemma_skip_at(s, p, k, c1 + n + j);
    }
    lemma_replace_absent(x, p, r);
    lemma_replace_absent(y, p, r);
    assert(p.take(n) =~= p);
    assert(p.skip(n) =~= Seq::<char>::empty());
    assert(replace_all(p, p, r) =~= r);
    let out = replace_all(s, p, r);
    let a = replace_all(s.take(k), p, r);
    let b = replace_all(u3.skip(c3), p, r);
    assert(out == a + (x + (r + (y + b))));
    let v = x + r + y;
    assert(out.subrange(a.len() as int, (a.len() + v.len()) as int) =~= v);
}

/// The characters of a stretch found in a text.
pub proof fn lemma_at_char(s: Seq<char>, w: Seq<char>, k: int, t: int)
    requires
        at(s, w, k),
        0 <= t < w.len(),
    ensures
        s[k + t] == w[t],
{
    assert(s.subrange(k, k + w.len())[t] == s[k + t]);
}

} // verus!
