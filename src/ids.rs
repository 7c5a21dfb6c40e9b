//! Identifier normalization: ids are compared, looked up and stored in one
//! canonical form (trimmed, ASCII-lowercased, `_` spelled `-`).
use vstd::prelude::*;

use crate::text::{chars_of, string_of};

verus! {

/// Unicode `White_Space`, the set that `str::trim` strips.
pub open spec fn is_space(c: char) -> bool {
    let u = c as u32;
    (9 <= u <= 13) || u == 32 || u == 0x85 || u == 0xA0 || u == 0x1680 || (0x2000 <= u
        <= 0x200A) || u == 0x2028 || u == 0x2029 || u == 0x202F || u == 0x205F || u == 0x3000
}

pub fn is_space_char(c: char) -> (r: bool)
    ensures
        r == is_space(c),
{
    let u = c as u32;
    (9 <= u && u <= 13) || u == 32 || u == 0x85 || u == 0xA0 || u == 0x1680 || (0x2000 <= u && u
        <= 0x200A) || u == 0x2028 || u == 0x2029 || u == 0x202F || u == 0x205F || u == 0x3000
}

pub open spec fn trim_start(s: Seq<char>) -> Seq<char>
    decreases s.len(),
{
    if s.len() > 0 && is_space(s[0]) {
        trim_start(s.drop_first())
    } else {
        s
    }
}

pub open spec fn trim_end(s: Seq<char>) -> Seq<char>
    decreases s.len(),
{
    if s.len() > 0 && is_space(s.last()) {
        trim_end(s.drop_last())
    } else {
        s
    }
}

/// `s` without surrounding whitespace.
pub open spec fn trim(s: Seq<char>) -> Seq<char> {
    trim_end(trim_start(s))
}

/// One character in canonical form: ASCII upper case lowered, `_` as `-`.
pub open spec fn canonical_char(c: char) -> char {
    if 'A' <= c <= 'Z' {
        ((c as u8) + 32) as char
    } else if c == '_' {
        '-'
    } else {
        c
    }
}

/// The canonical form of an id.
pub open spec fn normalize(s: Seq<char>) -> Seq<char> {
    trim(s).map_values(|c: char| canonical_char(c))
}

fn canonical(c: char) -> (r: char)
    ensures
        r == canonical_char(c),
{
    if 'A' <= c && c <= 'Z' {
        ((c as u8) + 32) as char
    } else if c == '_' {
        '-'
    } else {
        c
    }
}

/// The characters of `raw` without surrounding whitespace.
pub fn trim_chars(raw: &str) -> (r: Vec<char>)
    ensures
        r@ == trim(raw@),
{
    let v = chars_of(raw);
    let n = v.len();
    let mut lo: usize = 0;
    assert(v@.subrange(0, n as int) =~= v@);
    while lo < n && is_space_char(v[lo])
        invariant
            lo <= n,
            n == v.len(),
            trim_start(v@) == trim_start(v@.subrange(lo as int, n as int)),
        decreases n - lo,
    {
        assert(v@.subrange(lo as int, n as int).drop_first() =~= v@.subrange(lo + 1, n as int));
        lo = lo + 1;
    }
    let mut hi: usize = n;
    while hi > lo && is_space_char(v[hi - 1])
        invariant
            lo <= hi <= n,
            n == v.len(),
            trim(v@) == trim_end(v@.subrange(lo as int, hi as int)),
        decreases hi,
    {
        assert(v@.subrange(lo as int, hi as int).drop_last() =~= v@.subrange(lo as int, hi - 1));
        hi = hi - 1;
    }
    let mut out: Vec<char> = Vec::new();
    let mut i: usize = lo;
    while i < hi
        invariant
            lo <= i <= hi <= n,
            n == v.len(),
            out@ =~= v@.subrange(lo as int, i as int),
        decreases hi - i,
    {
        out.push(v[i]);
        i = i + 1;
    }
    out
}

/// Trims `raw`, lowers its ASCII letters and spells `_` as `-`.
pub fn normalize_id(raw: &str) -> (r: String)
    ensures
        r@ == normalize(raw@),
{
    let t = trim_chars(raw);
    let mut out: Vec<char> = Vec::new();
    let mut i: usize = 0;
    while i < t.len()
        invariant
            i <= t.len(),
            out@ =~= t@.take(i as int).map_values(|c: char| canonical_char(c)),
        decreases t.len() - i,
    {
        out.push(canonical(t[i]));
        i = i + 1;
    }
    assert(t@.take(i as int) =~= t@);
    string_of(&out)
}

/// The same normalization, under the name the permission code uses.
pub fn normalize_role_id(raw: &str) -> (r: String)
    ensures
        r@ == normalize(raw@),
{
    normalize_id(raw)
}

/// Whether a raw allow-list token stands for every role: `*`, or `all` in any
/// ASCII case, with surrounding whitespace ignored.
pub open spec fn is_allow_all_token(raw: Seq<char>) -> bool {
    let t = trim(raw);
    t == seq!['*'] || (t.len() == 3 && canonical_char(t[0]) == 'a' && canonical_char(t[1]) == 'l'
        && canonical_char(t[2]) == 'l')
}

pub fn matches_allow_all_token(raw: &str) -> (r: bool)
    ensures
        r == is_allow_all_token(raw@),
{
    let t = normalize_id(raw);
    let v = chars_of(t.as_str());
    let ghost tr = trim(raw@);
    assert(v@.len() == tr.len());
    if v.len() == 1 {
        assert(v@[0] == canonical_char(tr[0]));
        if v[0] == '*' {
            assert(tr[0] == '*');
            assert(tr =~= seq!['*']);
        }
        v[0] == '*'
    } else if v.len() == 3 {
        assert(v@[0] == canonical_char(tr[0]));
        assert(v@[1] == canonical_char(tr[1]));
        assert(v@[2] == canonical_char(tr[2]));
        v[0] == 'a' && v[1] == 'l' && v[2] == 'l'
    } else {
        false
    }
}

proof fn lemma_trim_shape(s: Seq<char>)
    ensures
        trim(s).len() == 0 || (!is_space(trim(s)[0]) && !is_space(trim(s).last())),
    decreases s.len(),
{
    lemma_trim_start_shape(s);
    lemma_trim_end_keeps_front(trim_start(s));
    lemma_trim_end_shape(trim_start(s));
}

proof fn lemma_trim_start_shape(s: Seq<char>)
    ensures
        trim_start(s).len() == 0 || !is_space(trim_start(s)[0]),
    decreases s.len(),
{
    if s.len() > 0 && is_space(s[0]) {
        lemma_trim_start_shape(s.drop_first());
    }
}

proof fn lemma_trim_end_shape(s: Seq<char>)
    ensures
        trim_end(s).len() == 0 || !is_space(trim_end(s).last()),
    decreases s.len(),
{
    if s.len() > 0 && is_space(s.last()) {
        lemma_trim_end_shape(s.drop_last());
    }
}

/// `trim_end` only cuts from the back: what is left is a prefix.
proof fn lemma_trim_end_keeps_front(s: Seq<char>)
    ensures
        trim_end(s).len() <= s.len(),
        trim_end(s) == s.take(trim_end(s).len() as int),
    decreases s.len(),
{
    if s.len() > 0 && is_space(s.last()) {
        lemma_trim_end_keeps_front(s.drop_last());
        assert(s.drop_last().take(trim_end(s).len() as int) =~= s.take(trim_end(s).len() as int));
    } else {
        assert(s.take(s.len() as int) =~= s);
    }
}

proof fn lemma_trim_of_trimmed(s: Seq<char>)
    requires
        s.len() == 0 || (!is_space(s[0]) && !is_space(s.last())),
    ensures
        trim(s) == s,
{
}

proof fn lemma_trim_start_map(s: Seq<char>)
    ensures
        trim_start(s.map_values(|c: char| canonical_char(c))) == trim_start(s).map_values(
            |c: char| canonical_char(c),
        ),
    decreases s.len(),
{
    let m = s.map_values(|c: char| canonical_char(c));
    if s.len() > 0 && is_space(s[0]) {
        assert(m.drop_first() =~= s.drop_first().map_values(|c: char| canonical_char(c)));
        lemma_trim_start_map(s.drop_first());
    }
}

proof fn lemma_trim_end_map(s: Seq<char>)
    ensures
        trim_end(s.map_values(|c: char| canonical_char(c))) == trim_end(s).map_values(
            |c: char| canonical_char(c),
        ),
    decreases s.len(),
{
    let m = s.map_values(|c: char| canonical_char(c));
    if s.len() > 0 && is_space(s.last()) {
        assert(m.drop_last() =~= s.drop_last().map_values(|c: char| canonical_char(c)));
        lemma_trim_end_map(s.drop_last());
    }
}

proof fn lemma_trim_start_skips_space(w: Seq<char>, x: Seq<char>)
    requires
        forall|i: int| 0 <= i < w.len() ==> is_space(#[trigger] w[i]),
    ensures
        trim_start(w + x) == trim_start(x),
    decreases w.len(),
{
    if w.len() > 0 {
        assert((w + x).drop_first() =~= w.drop_first() + x);
        lemma_trim_start_skips_space(w.drop_first(), x);
    } else {
        assert(w + x =~= x);
    }
}

proof fn lemma_trim_end_skips_space(x: Seq<char>, w: Seq<char>)
    requires
        forall|i: int| 0 <= i < w.len() ==> is_space(#[trigger] w[i]),
    ensures
        trim_end(x + w) == trim_end(x),
    decreases w.len(),
{
    if w.len() > 0 {
        assert((x + w).drop_last() =~= x + w.drop_last());
        lemma_trim_end_skips_space(x, w.drop_last());
    } else {
        assert(x + w =~= x);
    }
}

proof fn lemma_trim_skips_trailing_space(x: Seq<char>, w: Seq<char>)
    requires
        forall|i: int| 0 <= i < w.len() ==> is_space(#[trigger] w[i]),
    ensures
        trim(x + w) == trim(x),
    decreases x.len(),
{
    if x.len() == 0 {
        assert(x + w =~= w + x);
        lemma_trim_start_skips_space(w, x);
    } else if is_space(x[0]) {
        assert((x + w).drop_first() =~= x.drop_first() + w);
        lemma_trim_skips_trailing_space(x.drop_first(), w);
    } else {
        lemma_trim_end_skips_space(x, w);
    }
}

/// Normalizing an id twice gives what normalizing it once gives.
pub proof fn lemma_normalize_idempotent(s: Seq<char>)
    ensures
        normalize(normalize(s)) == normalize(s),
{
    let t = trim(s);
    let m = normalize(s);
    lemma_trim_shape(s);
    if t.len() > 0 {
        assert(m[0] == canonical_char(t[0]));
        assert(m.last() == canonical_char(t.last()));
    }
    lemma_trim_of_trimmed(m);
    assert(m.map_values(|c: char| canonical_char(c)) =~= m);
}

/// Normalization does not tell apart ids that differ only in ASCII case, in
/// `_` against `-`, or in surrounding whitespace.
pub proof fn lemma_normalize_equivalences(s: Seq<char>, before: Seq<char>, after: Seq<char>)
    requires
        forall|i: int| 0 <= i < before.len() ==> is_space(#[trigger] before[i]),
        forall|i: int| 0 <= i < after.len() ==> is_space(#[trigger] after[i]),
    ensures
        normalize(s.map_values(|c: char| canonical_char(c))) == normalize(s),
        normalize(before + s + after) == normalize(s),
{
    let m = s.map_values(|c: char| canonical_char(c));
    lemma_trim_start_map(s);
    lemma_trim_end_map(trim_start(s));
    assert(trim(m) == trim(s).map_values(|c: char| canonical_char(c)));
    assert(trim(s).map_values(|c: char| canonical_char(c)).map_values(|c: char| canonical_char(c))
        =~= trim(s).map_values(|c: char| canonical_char(c)));
    assert(before + s + after =~= before + (s + after));
    lemma_trim_start_skips_space(before, s + after);
    lemma_trim_skips_trailing_space(s, after);
}

} // verus!
