//! Character-sequence operations on strings: conversion to and from character
//! vectors, substring search, left-to-right replacement, splitting and prefix
//! stripping.

use vstd::prelude::*;

verus! {

/// `String::push` appends one character at the end of the string.
#[verifier::external_body]
fn push_char(s: &mut String, c: char)
    ensures
        final(s)@ == old(s)@.push(c),
{
    s.push(c)
}

/// `pat` occurs in `s` starting at position `i`.
pub open spec fn occurs_at(s: Seq<char>, pat: Seq<char>, i: int) -> bool {
    &&& 0 <= i
    &&& i + pat.len() <= s.len()
    &&& s.subrange(i, i + pat.len()) == pat
}

/// `pat` occurs somewhere in `s` (the empty pattern occurs in every sequence).
pub open spec fn contains_seq(s: Seq<char>, pat: Seq<char>) -> bool {
    exists|i: int| occurs_at(s, pat, i)
}

/// Replaces every occurrence of the non-empty pattern `pat` in `s` by `rep`, scanning from
/// left to right and resuming the scan after each replaced occurrence (so occurrences
/// do not overlap), as `str::replace` does.
pub open spec fn replace_all(s: Seq<char>, pat: Seq<char>, rep: Seq<char>) -> Seq<char>
    recommends
        pat.len() > 0,
    decreases s.len(),
{
    if pat.len() == 0 || s.len() < pat.len() {
        s
    } else if s.take(pat.len() as int) == pat {
        rep + replace_all(s.skip(pat.len() as int), pat, rep)
    } else {
        seq![s[0]] + replace_all(s.skip(1), pat, rep)
    }
}

/// `i` is the position of the first `c` in `s`.
pub open spec fn is_first_index(s: Seq<char>, c: char, i: int) -> bool {
    &&& 0 <= i < s.len()
    &&& s[i] == c
    &&& forall|j: int| 0 <= j < i ==> s[j] != c
}

/// Splits `s` at the first occurrence of `c`, dropping that character, as `str::split_once`
/// does with a character pattern; `None` when `c` does not occur.
pub open spec fn split_once_seq(s: Seq<char>, c: char) -> Option<(Seq<char>, Seq<char>)> {
    if exists|i: int| 0 <= i < s.len() && s[i] == c {
        let i = choose|i: int| is_first_index(s, c, i);
        Some((s.take(i), s.skip(i + 1)))
    } else {
        None
    }
}

/// The sequence without its leading `prefix`, or `None` when it does not start with it.
pub open spec fn strip_prefix_seq(s: Seq<char>, prefix: Seq<char>) -> Option<Seq<char>> {
    if prefix.len() <= s.len() && s.take(prefix.len() as int) == prefix {
        Some(s.skip(prefix.len() as int))
    } else {
        None
    }
}

/// The characters of `s`, in order.
pub fn chars_of(s: &str) -> (r: Vec<char>)
    ensures
        r@ == s@,
{
    let mut r: Vec<char> = Vec::new();
    for c in it: s.chars()
        invariant
            r@ == it.seq().take(it.index()),
    {
        r.push(c);
    }
    r
}

/// The string made of the characters of `v`, in order.
pub fn string_from_chars(v: &Vec<char>) -> (r: String)
    ensures
        r@ == v@,
{
    let mut r = String::new();
    let mut i: usize = 0;
    while i < v.len()
        invariant
            i <= v.len(),
            r@ == v@.take(i as int),
        decreases v.len() - i,
    {
        push_char(&mut r, v[i]);
        assert(v@.take(i + 1) == v@.take(i as int).push(v@[i as int]));
        i += 1;
    }
    assert(v@.take(v.len() as int) == v@);
    r
}

/// Appends the characters of `src` to `dst`.
pub fn extend_chars(dst: &mut Vec<char>, src: &Vec<char>)
    ensures
        final(dst)@ == old(dst)@ + src@,
{
    let mut i: usize = 0;
    while i < src.len()
        invariant
            i <= src.len(),
            dst@ == old(dst)@ + src@.take(i as int),
        decreases src.len() - i,
    {
        dst.push(src[i]);
        assert(src@.take(i + 1) == src@.take(i as int).push(src@[i as int]));
        i += 1;
    }
    assert(src@.take(src.len() as int) == src@);
}

/// Whether `pat` occurs in `s` at position `i`.
fn occurs_at_exec(s: &Vec<char>, pat: &Vec<char>, i: usize) -> (r: bool)
    ensures
        r == occurs_at(s@, pat@, i as int),
{
    if i > s.len() || pat.len() > s.len() - i {
        return false;
    }
    let mut k: usize = 0;
    while k < pat.len()
        invariant
            k <= pat.len(),
            i + pat.len() <= s.len(),
            forall|j: int| 0 <= j < k ==> s@[i + j] == pat@[j],
        decreases pat.len() - k,
    {
        if s[i + k] != pat[k] {
            assert(s@.subrange(i as int, i + pat.len())[k as int] != pat@[k as int]);
            return false;
        }
        k += 1;
    }
    assert(s@.subrange(i as int, i + pat.len()) =~= pat@);
    true
}

/// Whether `pat` occurs in `s`, as `str::contains` with a string pattern.
pub fn contains_chars(s: &Vec<char>, pat: &Vec<char>) -> (r: bool)
    ensures
        r == contains_seq(s@, pat@),
{
    if pat.len() == 0 {
        assert(s@.subrange(0, 0) =~= pat@);
        assert(occurs_at(s@, pat@, 0));
        return true;
    }
    if pat.len() > s.len() {
        return false;
    }
    let last = s.len() - pat.len();
    let mut i: usize = 0;
    while i <= last
        invariant
            last == s.len() - pat.len(),
            last < s.len(),
            forall|j: int| 0 <= j < i ==> !occurs_at(s@, pat@, j),
        decreases last + 1 - i,
    {
        if occurs_at_exec(s, pat, i) {
            return true;
        }
        i += 1;
    }
    assert forall|j: int| !occurs_at(s@, pat@, j) by {
        if 0 <= j < i {
        }
    }
    false
}

/// Replaces every occurrence of `pat` in `s` by `rep`, as `str::replace` does.
pub fn replace_chars(s: &Vec<char>, pat: &Vec<char>, rep: &Vec<char>) -> (r: Vec<char>)
    requires
        pat@.len() > 0,
    ensures
        r@ == replace_all(s@, pat@, rep@),
{
    let mut out: Vec<char> = Vec::new();
    let mut i: usize = 0;
    assert(s@.skip(0) =~= s@);
    while i < s.len()
        invariant
            i <= s.len(),
            pat@.len() > 0,
            replace_all(s@, pat@, rep@) == out@ + replace_all(s@.skip(i as int), pat@, rep@),
        decreases s.len() - i,
    {
        let ghost rest = s@.skip(i as int);
        if pat.len() <= s.len() - i && occurs_at_exec(s, pat, i) {
            assert(rest.take(pat@.len() as int) =~= s@.subrange(i as int, i + pat@.len()));
            assert(rest.skip(pat@.len() as int) =~= s@.skip(i + pat@.len()));
            extend_chars(&mut out, rep);
            i += pat.len();
        } else {
            if pat.len() <= s.len() - i {
                assert(rest.take(pat@.len() as int) =~= s@.subrange(i as int, i + pat@.len()));
            }
            assert(rest.skip(1) =~= s@.skip(i + 1));
            assert(rest[0] == s@[i as int]);
            if pat.len() > s.len() - i {
                // no further match fits: the rest is kept as it is
                assert(replace_all(rest, pat@, rep@) == rest);
                assert(replace_all(rest.skip(1), pat@, rep@) == rest.skip(1));
                assert(rest =~= seq![rest[0]] + rest.skip(1));
            }
            out.push(s[i]);
            i += 1;
        }
    }
    assert(s@.skip(i as int) =~= Seq::<char>::empty());
    out
}

/// The characters of `s` from position `from` up to, not including, position `to`.
pub fn sub_chars(s: &Vec<char>, from: usize, to: usize) -> (r: Vec<char>)
    requires
        from <= to <= s@.len(),
    ensures
        r@ == s@.subrange(from as int, to as int),
{
    let mut r: Vec<char> = Vec::new();
    let mut i: usize = from;
    while i < to
        invariant
            from <= i <= to <= s@.len(),
            r@ == s@.subrange(from as int, i as int),
        decreases to - i,
    {
        r.push(s[i]);
        assert(s@.subrange(from as int, i + 1) == s@.subrange(from as int, i as int).push(s@[i as int]));
        i += 1;
    }
    r
}

/// Splits `s` at the first occurrence of `c`, as `str::split_once` with a character pattern.
pub fn split_once_chars(s: &Vec<char>, c: char) -> (r: Option<(Vec<char>, Vec<char>)>)
    ensures
        r is None <==> split_once_seq(s@, c) is None,
        r matches Some((a, b)) ==> split_once_seq(s@, c) == Some((a@, b@)),
{
    let mut i: usize = 0;
    while i < s.len()
        invariant
            i <= s@.len(),
            forall|j: int| 0 <= j < i ==> s@[j] != c,
        decreases s.len() - i,
    {
        if s[i] == c {
            let ghost k = choose|k: int| is_first_index(s@, c, k);
            assert(is_first_index(s@, c, i as int));
            assert(k == i) by {
                if k < i {
                    assert(s@[k] != c);
                } else if k > i {
                    assert(s@[i as int] != c);
                }
            }
            let a = sub_chars(s, 0, i);
            let b = sub_chars(s, i + 1, s.len());
            assert(a@ =~= s@.take(i as int));
            assert(b@ =~= s@.skip(i + 1));
            return Some((a, b));
        }
        i += 1;
    }
    None
}

/// `s` without its leading `prefix`, as `str::strip_prefix` with a string pattern.
pub fn strip_prefix_chars(s: &Vec<char>, prefix: &Vec<char>) -> (r: Option<Vec<char>>)
    ensures
        r is None <==> strip_prefix_seq(s@, prefix@) is None,
        r matches Some(rest) ==> strip_prefix_seq(s@, prefix@) == Some(rest@),
{
    if prefix.len() <= s.len() && occurs_at_exec(s, prefix, 0) {
        assert(s@.subrange(0, prefix@.len() as int) =~= s@.take(prefix@.len() as int));
        let rest = sub_chars(s, prefix.len(), s.len());
        assert(rest@ =~= s@.skip(prefix@.len() as int));
        Some(rest)
    } else {
        if prefix.len() <= s.len() {
            assert(s@.subrange(0, prefix@.len() as int) =~= s@.take(prefix@.len() as int));
        }
        None
    }
}

/// With a non-empty pattern that does not occur, replacement leaves the sequence as it is.
pub proof fn lemma_replace_absent(s: Seq<char>, pat: Seq<char>, rep: Seq<char>)
    requires
        pat.len() > 0,
        !contains_seq(s, pat),
    ensures
        replace_all(s, pat, rep) == s,
    decreases s.len(),
{
    if s.len() >= pat.len() {
        assert(s.take(pat.len() as int) =~= s.subrange(0, pat.len() as int));
        assert(!occurs_at(s, pat, 0));
        assert(!contains_seq(s.skip(1), pat)) by {
            if exists|i: int| occurs_at(s.skip(1), pat, i) {
                let i = choose|i: int| occurs_at(s.skip(1), pat, i);
                assert(s.skip(1).subrange(i, i + pat.len()) =~= s.subrange(i + 1, i + 1 + pat.len()));
                assert(occurs_at(s, pat, i + 1));
            }
        }
        lemma_replace_absent(s.skip(1), pat, rep);
        assert(s =~= seq![s[0]] + s.skip(1));
    }
}

/// A sequence that contains `a + p + b` contains `p`.
pub proof fn lemma_contains_inner(s: Seq<char>, a: Seq<char>, p: Seq<char>, b: Seq<char>)
    requires
        contains_seq(s, a + p + b),
    ensures
        contains_seq(s, p),
{
    let w = a + p + b;
    let i = choose|i: int| occurs_at(s, w, i);
    assert(s.subrange(i + a.len(), i + a.len() + p.len()) =~= w.subrange(a.len() as int, (a.len() + p.len()) as int));
    assert(w.subrange(a.len() as int, (a.len() + p.len()) as int) =~= p);
    assert(occurs_at(s, p, i + a.len()));
}

/// No character of `s` is `c`.
pub open spec fn free_of(s: Seq<char>, c: char) -> bool {
    forall|i: int| 0 <= i < s.len() ==> s[i] != c
}

/// The first `m` characters of a replacement's result either are the first `m` characters of
/// the input, unchanged, or include the start of a copy of `rep`.
pub proof fn lemma_replace_prefix(u: Seq<char>, pat: Seq<char>, rep: Seq<char>, m: int)
    requires
        pat.len() > 0,
        0 <= m <= replace_all(u, pat, rep).len(),
    ensures
        ({
            let r = replace_all(u, pat, rep);
            ||| (m <= u.len() && r.take(m) == u.take(m))
            ||| exists|k: int| 0 <= k < m && k + rep.len() <= r.len() && #[trigger] r.subrange(k, k + rep.len()) == rep
        }),
    decreases u.len(),
{
    let r = replace_all(u, pat, rep);
    if u.len() < pat.len() {
        assert(r == u);
    } else if u.take(pat.len() as int) == pat {
        if m == 0 {
            assert(r.take(0) =~= u.take(0));
        } else {
            let r2 = replace_all(u.skip(pat.len() as int), pat, rep);
            assert(r == rep + r2);
            assert(r.subrange(0, 0int + rep.len()) =~= rep);
        }
    } else {
        let r2 = replace_all(u.skip(1), pat, rep);
        assert(r == seq![u[0]] + r2);
        if m == 0 {
            assert(r.take(0) =~= u.take(0));
        } else {
            lemma_replace_prefix(u.skip(1), pat, rep, m - 1);
            if m - 1 <= u.skip(1).len() && r2.take(m - 1) == u.skip(1).take(m - 1) {
                assert forall|i: int| 0 <= i < m implies r.take(m)[i] == u.take(m)[i] by {
                    if i > 0 {
                        assert(r[i] == r2[i - 1]);
                        assert(r2.take(m - 1)[i - 1] == u.skip(1).take(m - 1)[i - 1]);
                    }
                }
                assert(r.take(m) =~= u.take(m));
            } else {
                assert(exists|k: int| 0 <= k < m - 1 && k + rep.len() <= r2.len() && #[trigger] r2.subrange(k, k + rep.len()) == rep);
                let k = choose|k: int| 0 <= k < m - 1 && k + rep.len() <= r2.len() && #[trigger] r2.subrange(k, k + rep.len()) == rep;
                assert(r.subrange(k + 1, k + 1 + rep.len()) =~= r2.subrange(k, k + rep.len()));
                assert(0 <= k + 1 < m && k + 1 + rep.len() <= r.len() && r.subrange(k + 1, k + 1 + rep.len()) == rep);
            }
        }
    }
}

/// Replacing a pattern by text without `_` leaves no occurrence of a sequence `w` that starts
/// and ends with `_` and is not longer than the replacement, provided every occurrence of `w`
/// in the input is also an occurrence of the pattern.
pub proof fn lemma_replace_leaves_no_bounded(u: Seq<char>, pat: Seq<char>, rep: Seq<char>, w: Seq<char>)
    requires
        pat.len() > 0,
        w.len() >= 2,
        w[0] == '_',
        w[w.len() - 1] == '_',
        free_of(rep, '_'),
        rep.len() >= w.len(),
        forall|j: int| occurs_at(u, w, j) ==> occurs_at(u, pat, j),
    ensures
        !contains_seq(replace_all(u, pat, rep), w),
    decreases u.len(),
{
    let r = replace_all(u, pat, rep);
    let n = w.len() as int;
    if u.len() < pat.len() {
        assert forall|j: int| !occurs_at(r, w, j) by {
            if occurs_at(u, w, j) {
                assert(occurs_at(u, pat, j));
            }
        }
    } else if u.take(pat.len() as int) == pat {
        let p = pat.len() as int;
        let v = u.skip(p);
        let r2 = replace_all(v, pat, rep);
        assert(r == rep + r2);
        assert forall|j: int| occurs_at(v, w, j) implies occurs_at(v, pat, j) by {
            assert(v.subrange(j, j + n) =~= u.subrange(j + p, j + p + n));
            assert(occurs_at(u, w, j + p));
            assert(v.subrange(j, j + p) =~= u.subrange(j + p, j + p + p));
        }
        lemma_replace_leaves_no_bounded(v, pat, rep, w);
        assert forall|i: int| !occurs_at(r, w, i) by {
            if occurs_at(r, w, i) {
                assert(r.subrange(i, i + n)[0] == r[i]);
                if i < rep.len() {
                    assert(r[i] == rep[i]);
                } else {
                    assert(r.subrange(i, i + n) =~= r2.subrange(i - rep.len(), i - rep.len() + n));
                    assert(occurs_at(r2, w, i - rep.len()));
                }
            }
        }
    } else {
        let v = u.skip(1);
        let r2 = replace_all(v, pat, rep);
        assert(r == seq![u[0]] + r2);
        assert forall|j: int| occurs_at(v, w, j) implies occurs_at(v, pat, j) by {
            assert(v.subrange(j, j + n) =~= u.subrange(j + 1, j + 1 + n));
            assert(occurs_at(u, w, j + 1));
            assert(v.subrange(j, j + pat.len()) =~= u.subrange(j + 1, j + 1 + pat.len()));
        }
        lemma_replace_leaves_no_bounded(v, pat, rep, w);
        assert forall|i: int| !occurs_at(r, w, i) by {
            if occurs_at(r, w, i) {
                if i >= 1 {
                    assert(r.subrange(i, i + n) =~= r2.subrange(i - 1, i - 1 + n));
                    assert(occurs_at(r2, w, i - 1));
                } else {
                    lemma_replace_prefix(v, pat, rep, n - 1);
                    if n - 1 <= v.len() && r2.take(n - 1) == v.take(n - 1) {
                        assert forall|q: int| 0 <= q < n implies r.take(n)[q] == u.take(n)[q] by {
                            if q > 0 {
                                assert(r[q] == r2[q - 1]);
                                assert(r2.take(n - 1)[q - 1] == v.take(n - 1)[q - 1]);
                            }
                        }
                        assert(r.take(n) =~= u.take(n));
                        assert(u.subrange(0, n) =~= u.take(n));
                        assert(r.subrange(0, n) =~= r.take(n));
                        assert(occurs_at(u, w, 0));
                        assert(u.subrange(0, pat.len() as int) =~= u.take(pat.len() as int));
                    } else {
                        assert(exists|k: int| 0 <= k < n - 1 && k + rep.len() <= r2.len() && #[trigger] r2.subrange(k, k + rep.len()) == rep);
                        let k = choose|k: int| 0 <= k < n - 1 && k + rep.len() <= r2.len() && #[trigger] r2.subrange(k, k + rep.len()) == rep;
                        assert(r[n - 1] == r2[n - 2]);
                        assert(r2[n - 2] == r2.subrange(k, k + rep.len())[n - 2 - k]);
                        assert(r.subrange(0, n)[n - 1] == r[n - 1]);
                    }
                }
            }
        }
    }
}

} // verus!
