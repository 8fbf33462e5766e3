//! Byte-string utilities: substring search, host-prefix stripping, copying,
//! and lexicographic ordering with a sort.
//!
//! All identifiers, URLs and fetched file bodies are handled as byte strings,
//! so every text rule of the system is stated over `Seq<u8>`.

use vstd::multiset::Multiset;
use vstd::prelude::*;

verus! {

/// `pat` occurs in `text` starting at position `i`.
pub open spec fn matches_at(text: Seq<u8>, pat: Seq<u8>, i: int) -> bool {
    0 <= i && i + pat.len() <= text.len() && text.subrange(i, i + pat.len()) == pat
}

/// `pat` occurs somewhere in `text` as a contiguous substring.
pub open spec fn contains_sub(text: Seq<u8>, pat: Seq<u8>) -> bool {
    exists|i: int| matches_at(text, pat, i)
}

/// Compare `pat` against `text` at offset `i`.
fn matches_at_exec(text: &Vec<u8>, pat: &Vec<u8>, i: usize) -> (r: bool)
    requires
        i + pat@.len() <= text@.len(),
    ensures
        r == matches_at(text@, pat@, i as int),
{
    let n = text.len();
    let m = pat.len();
    let mut j: usize = 0;
    while j < m
        invariant
            0 <= j <= m,
            m == pat@.len(),
            n == text@.len(),
            i + m <= n,
            forall|k: int| 0 <= k < j ==> text@[i + k] == pat@[k],
        decreases m - j,
    {
        if text[i + j] != pat[j] {
            assert(text@.subrange(i as int, i + pat@.len())[j as int] != pat@[j as int]);
            return false;
        }
        j = j + 1;
    }
    assert(text@.subrange(i as int, i + pat@.len()) =~= pat@);
    true
}

/// Naive substring search.
pub fn contains_bytes(text: &Vec<u8>, pat: &Vec<u8>) -> (r: bool)
    ensures
        r == contains_sub(text@, pat@),
{
    if pat.len() > text.len() {
        assert(forall|i: int| !matches_at(text@, pat@, i));
        return false;
    }
    let last = text.len() - pat.len();
    let mut i: usize = 0;
    loop
        invariant
            0 <= i <= last,
            last == text@.len() - pat@.len(),
            pat@.len() <= text@.len(),
            forall|k: int| 0 <= k < i ==> !matches_at(text@, pat@, k),
        ensures
            forall|k: int| 0 <= k <= last ==> !matches_at(text@, pat@, k),
        decreases last - i,
    {
        if matches_at_exec(text, pat, i) {
            return true;
        }
        if i == last {
            break;
        }
        i = i + 1;
    }
    assert(forall|k: int| !matches_at(text@, pat@, k));
    false
}

/// `s` with every leading repetition of the non-empty prefix `p` removed.
pub open spec fn strip_all(s: Seq<u8>, p: Seq<u8>) -> Seq<u8>
    decreases s.len() when p.len() > 0
{
    if p.is_prefix_of(s) {
        strip_all(s.skip(p.len() as int), p)
    } else {
        s
    }
}

/// Copy a byte string.
pub fn copy_bytes(v: &Vec<u8>) -> (r: Vec<u8>)
    ensures
        r@ == v@,
{
    let r = copy_suffix(v, 0);
    assert(v@.skip(0) =~= v@);
    r
}

/// Copy the suffix of `v` that starts at `from`.
fn copy_suffix(v: &Vec<u8>, from: usize) -> (r: Vec<u8>)
    requires
        from <= v@.len(),
    ensures
        r@ == v@.skip(from as int),
{
    let n = v.len();
    let mut r: Vec<u8> = Vec::new();
    let mut i: usize = from;
    while i < n
        invariant
            from <= i <= n,
            n == v@.len(),
            r@ == v@.subrange(from as int, i as int),
        decreases n - i,
    {
        r.push(v[i]);
        assert(r@ =~= v@.subrange(from as int, i + 1));
        i = i + 1;
    }
    assert(v@.subrange(from as int, v@.len() as int) =~= v@.skip(from as int));
    r
}

/// Does `p` occur as a prefix of `s` at offset `at`?
fn has_prefix_at(s: &Vec<u8>, p: &Vec<u8>, at: usize) -> (r: bool)
    requires
        at <= s@.len(),
    ensures
        r == p@.is_prefix_of(s@.skip(at as int)),
{
    let n = s.len();
    let m = p.len();
    if n - at < m {
        return false;
    }
    let mut j: usize = 0;
    while j < m
        invariant
            0 <= j <= m,
            m == p@.len(),
            n == s@.len(),
            at + m <= n,
            forall|k: int| 0 <= k < j ==> s@[at + k] == p@[k],
        decreases m - j,
    {
        if s[at + j] != p[j] {
            assert(s@.skip(at as int).subrange(0, p@.len() as int)[j as int] != p@[j as int]);
            return false;
        }
        j = j + 1;
    }
    assert(s@.skip(at as int).subrange(0, p@.len() as int) =~= p@);
    true
}

/// Remove every leading repetition of the non-empty prefix `p` from `s`.
pub fn strip_prefix_all(s: &Vec<u8>, p: &Vec<u8>) -> (r: Vec<u8>)
    requires
        p@.len() > 0,
    ensures
        r@ == strip_all(s@, p@),
{
    let n = s.len();
    let mut at: usize = 0;
    assert(s@.skip(0) =~= s@);
    loop
        invariant
            0 <= at <= n,
            n == s@.len(),
            p@.len() > 0,
            strip_all(s@, p@) == strip_all(s@.skip(at as int), p@),
        ensures
            at <= s@.len(),
            strip_all(s@, p@) == s@.skip(at as int),
        decreases n - at,
    {
        if !has_prefix_at(s, p, at) {
            break;
        }
        proof {
            assert(s@.skip(at as int).skip(p@.len() as int) =~= s@.skip(at + p@.len()));
        }
        at = at + p.len();
    }
    copy_suffix(s, at)
}

/// Lexicographic byte order: `a` sorts at or before `b`.
pub open spec fn lex_leq(a: Seq<u8>, b: Seq<u8>) -> bool
    decreases a.len(),
{
    if a.len() == 0 {
        true
    } else if b.len() == 0 {
        false
    } else if a.first() < b.first() {
        true
    } else if b.first() < a.first() {
        false
    } else {
        lex_leq(a.drop_first(), b.drop_first())
    }
}

pub proof fn lemma_lex_leq_refl(a: Seq<u8>)
    ensures
        lex_leq(a, a),
    decreases a.len(),
{
    if a.len() > 0 {
        lemma_lex_leq_refl(a.drop_first());
    }
}

pub proof fn lemma_lex_leq_total(a: Seq<u8>, b: Seq<u8>)
    ensures
        lex_leq(a, b) || lex_leq(b, a),
    decreases a.len(),
{
    if a.len() > 0 && b.len() > 0 && a.first() == b.first() {
        lemma_lex_leq_total(a.drop_first(), b.drop_first());
    }
}

pub proof fn lemma_lex_leq_antisym(a: Seq<u8>, b: Seq<u8>)
    requires
        lex_leq(a, b),
        lex_leq(b, a),
    ensures
        a == b,
    decreases a.len(),
{
    if a.len() > 0 && b.len() > 0 && a.first() == b.first() {
        lemma_lex_leq_antisym(a.drop_first(), b.drop_first());
        assert(a.drop_first() == b.drop_first());
        assert(a.drop_first().len() == a.len() - 1);
        assert(b.drop_first().len() == b.len() - 1);
        assert(a.len() == b.len());
        assert forall|i: int| 0 <= i < a.len() implies a[i] == b[i] by {
            if i > 0 {
                assert(a[i] == a.drop_first()[i - 1]);
                assert(b[i] == b.drop_first()[i - 1]);
            }
        }
        assert(a =~= b);
    } else {
        assert(a =~= b);
    }
}

pub proof fn lemma_lex_leq_trans(a: Seq<u8>, b: Seq<u8>, c: Seq<u8>)
    requires
        lex_leq(a, b),
        lex_leq(b, c),
    ensures
        lex_leq(a, c),
    decreases a.len(),
{
    if a.len() > 0 && b.len() > 0 && c.len() > 0 && a.first() == b.first() && b.first()
        == c.first() {
        lemma_lex_leq_trans(a.drop_first(), b.drop_first(), c.drop_first());
    }
}

/// Lexicographic comparison of two byte strings.
pub fn lex_leq_bytes(a: &Vec<u8>, b: &Vec<u8>) -> (r: bool)
    ensures
        r == lex_leq(a@, b@),
{
    let alen = a.len();
    let blen = b.len();
    let short = if alen < blen {
        alen
    } else {
        blen
    };
    let mut i: usize = 0;
    proof {
        assert(a@.skip(0) =~= a@);
        assert(b@.skip(0) =~= b@);
    }
    while i < short
        invariant
            0 <= i <= short,
            alen == a@.len(),
            blen == b@.len(),
            short == if alen < blen {
                alen
            } else {
                blen
            },
            lex_leq(a@, b@) == lex_leq(a@.skip(i as int), b@.skip(i as int)),
        decreases short - i,
    {
        proof {
            assert(a@.skip(i as int).drop_first() =~= a@.skip(i + 1));
            assert(b@.skip(i as int).drop_first() =~= b@.skip(i + 1));
        }
        if a[i] < b[i] {
            return true;
        }
        if b[i] < a[i] {
            return false;
        }
        i = i + 1;
    }
    assert(lex_leq(a@.skip(i as int), b@.skip(i as int)) == (alen <= blen));
    alen <= blen
}

/// The views of a sequence of byte strings.
pub open spec fn dv(s: Seq<Vec<u8>>) -> Seq<Seq<u8>> {
    s.map_values(|v: Vec<u8>| v@)
}

/// The byte strings stand in lexicographic order.
pub open spec fn ids_sorted(s: Seq<Vec<u8>>) -> bool {
    forall|i: int, j: int| 0 <= i < j < s.len() ==> lex_leq(s[i]@, s[j]@)
}

/// Sort byte strings lexicographically; the result is a sorted permutation
/// of the input.
pub fn sort_ids(v: Vec<Vec<u8>>) -> (r: Vec<Vec<u8>>)
    ensures
        ids_sorted(r@),
        dv(r@).to_multiset() == dv(v@).to_multiset(),
{
    let mut rest = v;
    let mut out: Vec<Vec<u8>> = Vec::new();
    proof {
        lemma_empty_ids_multiset(out@);
        assert(dv(out@).to_multiset().add(dv(rest@).to_multiset()) =~= dv(v@).to_multiset());
    }
    while rest.len() > 0
        invariant
            dv(out@).to_multiset().add(dv(rest@).to_multiset()) == dv(v@).to_multiset(),
            ids_sorted(out@),
            forall|i: int, j: int|
                0 <= i < out@.len() && 0 <= j < rest@.len() ==> lex_leq(out@[i]@, rest@[j]@),
        decreases rest@.len(),
    {
        let m = min_index(&rest);
        let ghost old_out = out@;
        let ghost old_rest = rest@;
        let x = rest.remove(m);
        out.push(x);
        proof {
            lemma_sort_step(old_out, old_rest, m as int);
            assert(dv(out@).to_multiset().add(dv(rest@).to_multiset()) =~= dv(v@).to_multiset());
        }
    }
    proof {
        lemma_empty_ids_multiset(rest@);
        assert(dv(out@).to_multiset().add(dv(rest@).to_multiset()) =~= dv(out@).to_multiset());
    }
    out
}

proof fn lemma_empty_ids_multiset(s: Seq<Vec<u8>>)
    requires
        s.len() == 0,
    ensures
        dv(s).to_multiset() =~= Multiset::<Seq<u8>>::empty(),
{
    broadcast use vstd::seq_lib::group_to_multiset_ensures;

    assert forall|x: Seq<u8>| dv(s).to_multiset().count(x) == 0 by {
        assert(!dv(s).contains(x));
    }
}

/// An index of a lexicographically least element.
fn min_index(rest: &Vec<Vec<u8>>) -> (m: usize)
    requires
        rest@.len() > 0,
    ensures
        0 <= m < rest@.len(),
        forall|t: int| 0 <= t < rest@.len() ==> lex_leq(rest@[m as int]@, rest@[t]@),
{
    let n = rest.len();
    let mut m: usize = 0;
    let mut k: usize = 1;
    proof {
        lemma_lex_leq_refl(rest@[0]@);
    }
    while k < n
        invariant
            0 <= m < k <= n,
            n == rest@.len(),
            forall|t: int| 0 <= t < k ==> lex_leq(rest@[m as int]@, rest@[t]@),
        decreases n - k,
    {
        if lex_leq_bytes(&rest[k], &rest[m]) {
            proof {
                lemma_lex_leq_refl(rest@[k as int]@);
                assert forall|t: int| 0 <= t < k + 1 implies lex_leq(
                    rest@[k as int]@,
                    rest@[t]@,
                ) by {
                    if t < k {
                        lemma_lex_leq_trans(rest@[k as int]@, rest@[m as int]@, rest@[t]@);
                    }
                }
            }
            m = k;
        } else {
            proof {
                lemma_lex_leq_total(rest@[k as int]@, rest@[m as int]@);
            }
        }
        k = k + 1;
    }
    m
}

proof fn lemma_sort_step(old_out: Seq<Vec<u8>>, old_rest: Seq<Vec<u8>>, m: int)
    requires
        0 <= m < old_rest.len(),
    ensures
        dv(old_out.push(old_rest[m])).to_multiset() == dv(old_out).to_multiset().insert(
            old_rest[m]@,
        ),
        dv(old_rest.remove(m)).to_multiset() == dv(old_rest).to_multiset().remove(old_rest[m]@),
        dv(old_out).to_multiset().insert(old_rest[m]@).add(
            dv(old_rest).to_multiset().remove(old_rest[m]@),
        ) =~= dv(old_out).to_multiset().add(dv(old_rest).to_multiset()),
{
    broadcast use vstd::seq_lib::group_to_multiset_ensures;

    assert(dv(old_out.push(old_rest[m])) =~= dv(old_out).push(old_rest[m]@));
    assert(dv(old_rest.remove(m)) =~= dv(old_rest).remove(m));
    assert(dv(old_rest).remove(m).to_multiset() =~= dv(old_rest).to_multiset().remove(
        dv(old_rest)[m],
    ));
    assert(dv(old_rest).to_multiset().count(old_rest[m]@) > 0) by {
        assert(dv(old_rest)[m] == old_rest[m]@);
        assert(dv(old_rest).contains(old_rest[m]@));
    }
}

} // verus!
