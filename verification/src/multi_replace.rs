//! Replacing several patterns in one left-to-right scan, and how single replacements
//! combine into it.

use vstd::prelude::*;
use crate::text::{contains_seq, free_of, occurs_at, replace_all};

verus! {

/// The non-empty pattern `p` occurs at the start of `s`.
pub open spec fn starts_with(s: Seq<char>, p: Seq<char>) -> bool {
    0 < p.len() <= s.len() && s.take(p.len() as int) == p
}

/// The first `(pattern, replacement)` of `ps` whose pattern occurs at the start of `s`.
pub open spec fn pick(s: Seq<char>, ps: Seq<(Seq<char>, Seq<char>)>) -> Option<(Seq<char>, Seq<char>)>
    decreases ps.len(),
{
    if ps.len() == 0 {
        None
    } else if starts_with(s, ps[0].0) {
        Some(ps[0])
    } else {
        pick(s, ps.drop_first())
    }
}

/// Scans `s` from the left; where one of the patterns of `ps` occurs (the first in `ps` that
/// does), puts its replacement and resumes after the occurrence; elsewhere keeps the
/// character.
pub open spec fn replace_many(s: Seq<char>, ps: Seq<(Seq<char>, Seq<char>)>) -> Seq<char>
    decreases s.len(),
{
    if s.len() == 0 {
        s
    } else {
        match pick(s, ps) {
            Some(e) => if 0 < e.0.len() <= s.len() {
                e.1 + replace_many(s.skip(e.0.len() as int), ps)
            } else {
                s
            },
            None => seq![s[0]] + replace_many(s.skip(1), ps),
        }
    }
}

/// No occurrence of `p` in `s` overlaps an occurrence of `q`.
pub open spec fn apart(s: Seq<char>, p: Seq<char>, q: Seq<char>) -> bool {
    forall|i: int, j: int| occurs_at(s, p, i) && occurs_at(s, q, j) ==> i + p.len() <= j || j + q.len() <= i
}

/// An occurrence in a suffix is an occurrence in the whole.
pub proof fn lemma_occurs_in_skip(s: Seq<char>, p: Seq<char>, d: int, i: int)
    requires
        0 <= d <= s.len(),
        occurs_at(s.skip(d), p, i),
    ensures
        occurs_at(s, p, i + d),
{
    assert(s.skip(d).subrange(i, i + p.len()) =~= s.subrange(i + d, i + d + p.len()));
}

/// `p` occurs at position `i` exactly when it starts the suffix from `i`.
pub proof fn lemma_occurs_starts(s: Seq<char>, p: Seq<char>, i: int)
    requires
        p.len() > 0,
        0 <= i <= s.len(),
    ensures
        occurs_at(s, p, i) <==> starts_with(s.skip(i), p),
{
    if i + p.len() <= s.len() {
        assert(s.skip(i).take(p.len() as int) =~= s.subrange(i, i + p.len()));
    }
}

/// What `pick` gives: an entry of `ps` whose pattern starts `s`, or nothing when no pattern does.
pub proof fn lemma_pick(s: Seq<char>, ps: Seq<(Seq<char>, Seq<char>)>)
    ensures
        pick(s, ps) matches Some(e) ==> starts_with(s, e.0) && ps.contains(e),
        pick(s, ps) is None ==> forall|k: int| 0 <= k < ps.len() ==> !starts_with(s, #[trigger] ps[k].0),
    decreases ps.len(),
{
    if ps.len() > 0 {
        lemma_pick(s, ps.drop_first());
        if !starts_with(s, ps[0].0) {
            if let Some(e) = pick(s, ps.drop_first()) {
                let k = choose|k: int| 0 <= k < ps.drop_first().len() && ps.drop_first()[k] == e;
                assert(ps[k + 1] == e);
            } else {
                assert forall|k: int| 0 <= k < ps.len() implies !starts_with(s, #[trigger] ps[k].0) by {
                    if k > 0 {
                        assert(ps[k] == ps.drop_first()[k - 1]);
                    }
                }
            }
        } else {
            assert(ps[0] == ps[0]);
        }
    }
}

/// Adding an entry at the end of the list only matters where no earlier pattern occurs.
pub proof fn lemma_pick_push(s: Seq<char>, ps: Seq<(Seq<char>, Seq<char>)>, b: (Seq<char>, Seq<char>))
    ensures
        pick(s, ps.push(b)) == match pick(s, ps) {
            Some(e) => Some(e),
            None => if starts_with(s, b.0) { Some(b) } else { None },
        },
    decreases ps.len(),
{
    if ps.len() == 0 {
        assert(ps.push(b).drop_first() =~= Seq::<(Seq<char>, Seq<char>)>::empty());
    } else {
        assert(ps.push(b).drop_first() =~= ps.drop_first().push(b));
        assert(ps.push(b)[0] == ps[0]);
        lemma_pick_push(s, ps.drop_first(), b);
    }
}

/// A single replacement is a scan with one pattern.
pub proof fn lemma_replace_all_is_many(s: Seq<char>, a: Seq<char>, x: Seq<char>)
    requires
        a.len() > 0,
    ensures
        replace_all(s, a, x) == replace_many(s, seq![(a, x)]),
    decreases s.len(),
{
    let ps = seq![(a, x)];
    assert(ps.drop_first() =~= Seq::<(Seq<char>, Seq<char>)>::empty());
    assert(pick(s, Seq::<(Seq<char>, Seq<char>)>::empty()) is None);
    assert(pick(s, ps.drop_first()) is None);
    assert(ps[0] == (a, x));
    assert(pick(s, ps) == if starts_with(s, a) { Some((a, x)) } else { None::<(Seq<char>, Seq<char>)> });
    if s.len() == 0 {
    } else if s.len() < a.len() {
        lemma_replace_all_is_many(s.skip(1), a, x);
        assert(replace_all(s.skip(1), a, x) == s.skip(1));
        assert(s =~= seq![s[0]] + s.skip(1));
    } else if s.take(a.len() as int) == a {
        lemma_replace_all_is_many(s.skip(a.len() as int), a, x);
    } else {
        lemma_replace_all_is_many(s.skip(1), a, x);
    }
}

/// Where no pattern occurs in the first `k` characters, the scan keeps them.
pub proof fn lemma_many_keeps_prefix(s: Seq<char>, ps: Seq<(Seq<char>, Seq<char>)>, k: int)
    requires
        0 <= k <= s.len(),
        forall|idx: int| 0 <= idx < ps.len() ==> (#[trigger] ps[idx]).0.len() > 0,
        forall|i: int, idx: int| 0 <= i < k && 0 <= idx < ps.len() ==> !#[trigger] occurs_at(s, ps[idx].0, i),
    ensures
        replace_many(s, ps) == s.take(k) + replace_many(s.skip(k), ps),
    decreases k,
{
    if k == 0 {
        assert(s.skip(0) =~= s);
        assert(s.take(0) + s =~= s);
    } else {
        lemma_pick(s, ps);
        if let Some(e) = pick(s, ps) {
            let idx = choose|idx: int| 0 <= idx < ps.len() && ps[idx] == e;
            lemma_occurs_starts(s, ps[idx].0, 0);
            assert(s.skip(0) =~= s);
        }
        let v = s.skip(1);
        assert forall|i: int, idx: int| 0 <= i < k - 1 && 0 <= idx < ps.len() implies !#[trigger] occurs_at(v, ps[idx].0, i) by {
            if occurs_at(v, ps[idx].0, i) {
                lemma_occurs_in_skip(s, ps[idx].0, 1, i);
            }
        }
        lemma_many_keeps_prefix(v, ps, k - 1);
        assert(v.skip(k - 1) =~= s.skip(k));
        assert(s.take(k) =~= seq![s[0]] + v.take(k - 1));
    }
}

/// The first `m` characters of a scan's result either are the first `m` characters of the
/// input, unchanged, or include the start of one of the replacements.
pub proof fn lemma_many_prefix(s: Seq<char>, ps: Seq<(Seq<char>, Seq<char>)>, m: int)
    requires
        0 <= m <= replace_many(s, ps).len(),
    ensures
        ({
            let r = replace_many(s, ps);
            ||| (m <= s.len() && r.take(m) == s.take(m))
            ||| exists|k: int, idx: int| 0 <= k < m && 0 <= idx < ps.len() && k + ps[idx].1.len() <= r.len()
                && #[trigger] r.subrange(k, k + ps[idx].1.len()) == ps[idx].1
        }),
    decreases s.len(),
{
    let r = replace_many(s, ps);
    lemma_pick(s, ps);
    if m == 0 {
        assert(r.take(0) =~= s.take(0));
    } else if s.len() == 0 {
    } else {
        match pick(s, ps) {
            Some(e) => {
                if 0 < e.0.len() <= s.len() {
                    let idx = choose|idx: int| 0 <= idx < ps.len() && ps[idx] == e;
                    assert(r == e.1 + replace_many(s.skip(e.0.len() as int), ps));
                    assert(r.subrange(0, 0int + ps[idx].1.len()) =~= ps[idx].1);
                } else {
                    assert(r.take(m) =~= s.take(m));
                }
            },
            None => {
                let v = s.skip(1);
                let r2 = replace_many(v, ps);
                assert(r == seq![s[0]] + r2);
                lemma_many_prefix(v, ps, m - 1);
                if m - 1 <= v.len() && r2.take(m - 1) == v.take(m - 1) {
                    assert forall|i: int| 0 <= i < m implies r.take(m)[i] == s.take(m)[i] by {
                        if i > 0 {
                            assert(r[i] == r2[i - 1]);
                            assert(r2.take(m - 1)[i - 1] == v.take(m - 1)[i - 1]);
                        }
                    }
                    assert(r.take(m) =~= s.take(m));
                } else {
                    assert(exists|k: int, idx: int| 0 <= k < m - 1 && 0 <= idx < ps.len() && k + ps[idx].1.len() <= r2.len()
                        && #[trigger] r2.subrange(k, k + ps[idx].1.len()) == ps[idx].1);
                    let (k, idx) = choose|k: int, idx: int| 0 <= k < m - 1 && 0 <= idx < ps.len() && k + ps[idx].1.len() <= r2.len()
                        && #[trigger] r2.subrange(k, k + ps[idx].1.len()) == ps[idx].1;
                    assert(r.subrange(k + 1, k + 1 + ps[idx].1.len()) =~= r2.subrange(k, k + ps[idx].1.len()));
                }
            },
        }
    }
}

/// Replacing a pattern that starts with `_` passes over text that holds no `_`.
pub proof fn lemma_replace_skips_free(p: Seq<char>, t: Seq<char>, b: Seq<char>, y: Seq<char>)
    requires
        b.len() > 0,
        b[0] == '_',
        free_of(p, '_'),
    ensures
        replace_all(p + t, b, y) == p + replace_all(t, b, y),
    decreases p.len(),
{
    if p.len() == 0 {
        assert(p + t =~= t);
    } else {
        let u = p + t;
        if u.len() < b.len() {
            assert(replace_all(t, b, y) == t);
        } else {
            assert(u.take(b.len() as int)[0] == p[0]);
            assert(u.take(b.len() as int) != b);
            assert(u.skip(1) =~= p.skip(1) + t);
            lemma_replace_skips_free(p.skip(1), t, b, y);
            assert(p =~= seq![p[0]] + p.skip(1));
        }
    }
}

/// Replacing a pattern `b`, bounded by `_`, after a scan with `ps` is the scan with `b` added
/// last to `ps`, when the replacements of `ps` hold no `_` and are at least as long as `b`,
/// and no occurrence of a pattern of `ps` overlaps an occurrence of `b`.
pub proof fn lemma_replace_after_many(
    s: Seq<char>,
    ps: Seq<(Seq<char>, Seq<char>)>,
    b: Seq<char>,
    y: Seq<char>,
)
    requires
        b.len() >= 2,
        b[0] == '_',
        b[b.len() - 1] == '_',
        forall|idx: int| 0 <= idx < ps.len() ==> (#[trigger] ps[idx]).0.len() > 0 && free_of(ps[idx].1, '_')
            && ps[idx].1.len() >= b.len(),
        forall|idx: int| 0 <= idx < ps.len() ==> apart(s, (#[trigger] ps[idx]).0, b),
    ensures
        replace_all(replace_many(s, ps), b, y) == replace_many(s, ps.push((b, y))),
    decreases s.len(),
{
    let r = replace_many(s, ps);
    let qs = ps.push((b, y));
    let n = b.len() as int;
    lemma_pick(s, ps);
    lemma_pick_push(s, ps, (b, y));
    if s.len() == 0 {
    } else {
        match pick(s, ps) {
            Some(e) => {
                let idx = choose|idx: int| 0 <= idx < ps.len() && ps[idx] == e;
                assert(ps[idx].0.len() > 0);
                let d = e.0.len() as int;
                let v = s.skip(d);
                let t = replace_many(v, ps);
                assert(r == e.1 + t);
                lemma_replace_skips_free(e.1, t, b, y);
                assert forall|k: int| 0 <= k < ps.len() implies apart(v, (#[trigger] ps[k]).0, b) by {
                    assert forall|i: int, j: int| occurs_at(v, ps[k].0, i) && occurs_at(v, b, j)
                        implies i + ps[k].0.len() <= j || j + b.len() <= i by {
                        lemma_occurs_in_skip(s, ps[k].0, d, i);
                        lemma_occurs_in_skip(s, b, d, j);
                        assert(apart(s, ps[k].0, b));
                    }
                }
                lemma_replace_after_many(v, ps, b, y);
            },
            None => {
                if starts_with(s, b) {
                    lemma_occurs_starts(s, b, 0);
                    assert(s.skip(0) =~= s);
                    assert forall|i: int, idx: int| 0 <= i < n && 0 <= idx < ps.len()
                        implies !#[trigger] occurs_at(s, ps[idx].0, i) by {
                        if occurs_at(s, ps[idx].0, i) {
                            assert(apart(s, ps[idx].0, b));
                            assert(occurs_at(s, b, 0));
                        }
                    }
                    lemma_many_keeps_prefix(s, ps, n);
                    let v = s.skip(n);
                    let t = replace_many(v, ps);
                    assert(r == b + t);
                    assert((b + t).take(n) =~= b);
                    assert((b + t).skip(n) =~= t);
                    assert forall|k: int| 0 <= k < ps.len() implies apart(v, (#[trigger] ps[k]).0, b) by {
                        assert forall|i: int, j: int| occurs_at(v, ps[k].0, i) && occurs_at(v, b, j)
                            implies i + ps[k].0.len() <= j || j + b.len() <= i by {
                            lemma_occurs_in_skip(s, ps[k].0, n, i);
                            lemma_occurs_in_skip(s, b, n, j);
                            assert(apart(s, ps[k].0, b));
                        }
                    }
                    lemma_replace_after_many(v, ps, b, y);
                } else {
                    let v = s.skip(1);
                    let t = replace_many(v, ps);
                    assert(r == seq![s[0]] + t);
                    assert forall|k: int| 0 <= k < ps.len() implies apart(v, (#[trigger] ps[k]).0, b) by {
                        assert forall|i: int, j: int| occurs_at(v, ps[k].0, i) && occurs_at(v, b, j)
                            implies i + ps[k].0.len() <= j || j + b.len() <= i by {
                            lemma_occurs_in_skip(s, ps[k].0, 1, i);
                            lemma_occurs_in_skip(s, b, 1, j);
                            assert(apart(s, ps[k].0, b));
                        }
                    }
                    lemma_replace_after_many(v, ps, b, y);
                    if r.len() < n {
                        assert(replace_all(t, b, y) == t);
                    } else {
                        if r.take(n) == b {
                            lemma_many_prefix(v, ps, n - 1);
                            if n - 1 <= v.len() && t.take(n - 1) == v.take(n - 1) {
                                assert forall|q: int| 0 <= q < n implies r.take(n)[q] == s.take(n)[q] by {
                                    if q > 0 {
                                        assert(r[q] == t[q - 1]);
                                        assert(t.take(n - 1)[q - 1] == v.take(n - 1)[q - 1]);
                                    }
                                }
                                assert(s.take(n) =~= r.take(n));
                                assert(starts_with(s, b));
                            } else {
                                assert(exists|k: int, idx: int| 0 <= k < n - 1 && 0 <= idx < ps.len()
                                    && k + ps[idx].1.len() <= t.len()
                                    && #[trigger] t.subrange(k, k + ps[idx].1.len()) == ps[idx].1);
                                let (k, idx) = choose|k: int, idx: int| 0 <= k < n - 1 && 0 <= idx < ps.len()
                                    && k + ps[idx].1.len() <= t.len()
                                    && #[trigger] t.subrange(k, k + ps[idx].1.len()) == ps[idx].1;
                                assert(ps[idx].1.len() >= n);
                                assert(free_of(ps[idx].1, '_'));
                                assert(t[n - 2] == t.subrange(k, k + ps[idx].1.len())[n - 2 - k]);
                                assert(r[n - 1] == t[n - 2]);
                                assert(r.take(n)[n - 1] == r[n - 1]);
                            }
                        }
                        assert(r.take(n) != b);
                        assert(r.skip(1) =~= t);
                    }
                }
            },
        }
    }
}

/// The scan gives the same result for two lists with the same entries, when no two different
/// entries have patterns that occur at the same position.
pub proof fn lemma_many_same_entries(
    s: Seq<char>,
    ps: Seq<(Seq<char>, Seq<char>)>,
    qs: Seq<(Seq<char>, Seq<char>)>,
)
    requires
        forall|e: (Seq<char>, Seq<char>)| ps.contains(e) <==> qs.contains(e),
        forall|i: int, e: (Seq<char>, Seq<char>), f: (Seq<char>, Seq<char>)|
            #![trigger starts_with(s.skip(i), e.0), starts_with(s.skip(i), f.0)]
            ps.contains(e) && ps.contains(f) && starts_with(s.skip(i), e.0) && starts_with(s.skip(i), f.0)
            && 0 <= i <= s.len() ==> e == f,
    ensures
        replace_many(s, ps) == replace_many(s, qs),
    decreases s.len(),
{
    lemma_pick(s, ps);
    lemma_pick(s, qs);
    assert(s.skip(0) =~= s);
    if s.len() > 0 {
        let d: int = match pick(s, ps) {
            Some(e) => {
                let k = choose|k: int| 0 <= k < qs.len() && qs[k] == e;
                if let Some(f) = pick(s, qs) {
                    assert(f == e);
                } else {
                    assert(!starts_with(s, qs[k].0));
                }
                e.0.len() as int
            },
            None => {
                if let Some(f) = pick(s, qs) {
                    let k = choose|k: int| 0 <= k < ps.len() && ps[k] == f;
                    assert(!starts_with(s, ps[k].0));
                }
                1
            },
        };
        if 0 < d <= s.len() {
            let v = s.skip(d);
            assert forall|i: int, e: (Seq<char>, Seq<char>), f: (Seq<char>, Seq<char>)|
                #![trigger starts_with(v.skip(i), e.0), starts_with(v.skip(i), f.0)]
                ps.contains(e) && ps.contains(f) && starts_with(v.skip(i), e.0) && starts_with(v.skip(i), f.0)
                && 0 <= i <= v.len() implies e == f by {
                assert(v.skip(i) =~= s.skip(i + d));
                assert(starts_with(s.skip(i + d), e.0) && starts_with(s.skip(i + d), f.0));
            }
            lemma_many_same_entries(v, ps, qs);
        }
    }
}

} // verus!
