//! The natural order of item references: lexicographic by character.
use vstd::prelude::*;
use vstd::string::*;

verus! {

/// `a` comes strictly before `b`, comparing characters by code point.
pub open spec fn lex_lt(a: Seq<char>, b: Seq<char>) -> bool
    decreases a.len(),
{
    if a.len() == 0 {
        b.len() > 0
    } else if b.len() == 0 {
        false
    } else if a[0] != b[0] {
        (a[0] as u32) < (b[0] as u32)
    } else {
        lex_lt(a.drop_first(), b.drop_first())
    }
}

/// Each element comes strictly before the next: sorted and free of duplicates.
pub open spec fn strictly_ascending(rs: Seq<Seq<char>>) -> bool {
    forall|i: int, j: int| 0 <= i < j < rs.len() ==> lex_lt(#[trigger] rs[i], #[trigger] rs[j])
}

pub proof fn lemma_lex_irreflexive(a: Seq<char>)
    ensures
        !lex_lt(a, a),
    decreases a.len(),
{
    if a.len() > 0 {
        lemma_lex_irreflexive(a.drop_first());
    }
}

pub proof fn lemma_lex_total(a: Seq<char>, b: Seq<char>)
    requires
        a != b,
    ensures
        lex_lt(a, b) || lex_lt(b, a),
    decreases a.len(),
{
    if a.len() > 0 && b.len() > 0 {
        if a[0] == b[0] {
            if a.drop_first() == b.drop_first() {
                assert(a =~= seq![a[0]] + a.drop_first());
                assert(b =~= seq![b[0]] + b.drop_first());
            }
            lemma_lex_total(a.drop_first(), b.drop_first());
        } else {
            if (a[0] as u32) == (b[0] as u32) {
                vstd::utf8::char_u32_cast(a[0], a[0] as u32);
                vstd::utf8::char_u32_cast(b[0], b[0] as u32);
            }
        }
    } else if a.len() == 0 && b.len() == 0 {
        assert(a =~= b);
    }
}

pub proof fn lemma_lex_transitive(a: Seq<char>, b: Seq<char>, c: Seq<char>)
    requires
        lex_lt(a, b),
        lex_lt(b, c),
    ensures
        lex_lt(a, c),
    decreases a.len(),
{
    if a.len() > 0 && a[0] == b[0] && b[0] == c[0] {
        lemma_lex_transitive(a.drop_first(), b.drop_first(), c.drop_first());
    }
}

/// Whether `a` comes strictly before `b`.
pub fn lex_less(a: &str, b: &str) -> (r: bool)
    ensures
        r == lex_lt(a@, b@),
{
    let n = a.unicode_len();
    let m = b.unicode_len();
    let mut i: usize = 0;
    assert(a@.skip(0) =~= a@);
    assert(b@.skip(0) =~= b@);
    loop
        invariant
            n == a@.len(),
            m == b@.len(),
            i <= n,
            i <= m,
            lex_lt(a@, b@) == lex_lt(a@.skip(i as int), b@.skip(i as int)),
        decreases n - i,
    {
        if i == n {
            return i < m;
        }
        if i == m {
            return false;
        }
        let x = a.get_char(i);
        let y = b.get_char(i);
        if x != y {
            return (x as u32) < (y as u32);
        }
        assert(a@.skip(i as int).drop_first() =~= a@.skip(i + 1));
        assert(b@.skip(i as int).drop_first() =~= b@.skip(i + 1));
        i = i + 1;
    }
}

/// Puts `x` into the ascending `v` at its place.
pub fn insert_ascending(v: &mut Vec<String>, x: String)
    requires
        strictly_ascending(old(v).deep_view()),
        !old(v).deep_view().contains(x@),
    ensures
        strictly_ascending(final(v).deep_view()),
        forall|r: Seq<char>| #[trigger] final(v).deep_view().contains(r) <==> (old(v).deep_view().contains(r) || r == x@),
{
    let ghost xv = x@;
    let ghost before = v.deep_view();
    let mut p: usize = 0;
    while p < v.len()
        invariant
            v.deep_view() == before,
            xv == x@,
            p <= v.len(),
            strictly_ascending(before),
            !before.contains(xv),
            forall|i: int| 0 <= i < p ==> lex_lt(#[trigger] before[i], xv),
        ensures
            p <= v.len(),
            v.deep_view() == before,
            forall|i: int| 0 <= i < p ==> lex_lt(#[trigger] before[i], xv),
            p < v.len() ==> lex_lt(xv, before[p as int]),
        decreases v.len() - p,
    {
        if lex_less(x.as_str(), v[p].as_str()) {
            assert(before[p as int] == v[p as int]@);
            break;
        }
        proof {
            assert(before[p as int] == v[p as int]@);
            assert(before[p as int] != xv);
            lemma_lex_total(before[p as int], xv);
        }
        p = p + 1;
    }
    proof {
        if p < v.len() {
            assert(before[p as int] == v[p as int]@);
            assert forall|i: int| p <= i < before.len() implies lex_lt(xv, #[trigger] before[i]) by {
                if i > p {
                    lemma_lex_transitive(xv, before[p as int], before[i]);
                }
            }
        }
    }
    v.insert(p, x);
    proof {
        let after = v.deep_view();
        assert(after =~= before.insert(p as int, xv));
        assert forall|i: int, j: int| 0 <= i < j < after.len() implies lex_lt(#[trigger] after[i], #[trigger] after[j]) by {
            if i < p && j == p {
            } else if i < p && j > p {
                assert(after[j] == before[j - 1]);
            } else if i == p {
                assert(after[j] == before[j - 1]);
            } else if j < p {
                assert(after[i] == before[i]);
                assert(after[j] == before[j]);
            } else {
                assert(after[i] == before[i - 1]);
                assert(after[j] == before[j - 1]);
            }
        }
        assert forall|r: Seq<char>| #[trigger] after.contains(r) <==> (before.contains(r) || r == xv) by {
            if after.contains(r) {
                let k = choose|k: int| 0 <= k < after.len() && after[k] == r;
                if k < p {
                    assert(before[k] == r);
                } else if k > p {
                    assert(before[k - 1] == r);
                }
            }
            if before.contains(r) {
                let k = choose|k: int| 0 <= k < before.len() && before[k] == r;
                if k < p {
                    assert(after[k] == r);
                } else {
                    assert(after[k + 1] == r);
                }
            }
            if r == xv {
                assert(after[p as int] == r);
            }
        }
    }
}

} // verus!
