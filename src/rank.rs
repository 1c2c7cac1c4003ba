//! Aggregating phrase matches into scores and keeping the top-scoring references.
use vstd::prelude::*;
use crate::order::{insert_ascending, lex_lt, strictly_ascending};
use crate::phrases::{lemma_total_weight_take, phrase_views, total_weight, Phrase};

verus! {

broadcast use vstd::seq_lib::lemma_seq_contains_after_push;

/// `r` is among the references that some phrase matched.
pub open spec fn listed(lists: Seq<Seq<Seq<char>>>, r: Seq<char>) -> bool {
    exists|j: int| 0 <= j < lists.len() && #[trigger] lists[j].contains(r)
}

/// The weights of the first `j` phrases whose references hold `r`, summed;
/// a phrase counts once however often it lists `r`.
pub open spec fn weight_upto(
    lists: Seq<Seq<Seq<char>>>,
    ps: Seq<(Seq<char>, nat)>,
    j: nat,
    r: Seq<char>,
) -> nat
    decreases j,
{
    if j == 0 {
        0
    } else {
        weight_upto(lists, ps, (j - 1) as nat, r) + if lists[j - 1].contains(r) {
            ps[j - 1].1
        } else {
            0
        }
    }
}

/// The score of `r`: the weights of all phrases that matched it.
pub open spec fn weight_of(lists: Seq<Seq<Seq<char>>>, ps: Seq<(Seq<char>, nat)>, r: Seq<char>) -> nat {
    weight_upto(lists, ps, lists.len(), r)
}

/// `r` was matched and no matched reference scores more.
pub open spec fn is_top(lists: Seq<Seq<Seq<char>>>, ps: Seq<(Seq<char>, nat)>, r: Seq<char>) -> bool {
    &&& listed(lists, r)
    &&& forall|s: Seq<char>| #[trigger] listed(lists, s) ==> weight_of(lists, ps, s) <= weight_of(lists, ps, r)
}

pub proof fn lemma_weight_bounded(lists: Seq<Seq<Seq<char>>>, ps: Seq<(Seq<char>, nat)>, j: nat, r: Seq<char>)
    requires
        j <= ps.len(),
    ensures
        weight_upto(lists, ps, j, r) <= total_weight(ps.take(j as int)),
    decreases j,
{
    if j > 0 {
        lemma_weight_bounded(lists, ps, (j - 1) as nat, r);
        assert(ps.take(j as int).drop_last() =~= ps.take(j - 1));
    }
}

pub proof fn lemma_weight_unlisted(lists: Seq<Seq<Seq<char>>>, ps: Seq<(Seq<char>, nat)>, j: nat, r: Seq<char>)
    requires
        j <= lists.len(),
        !listed(lists.take(j as int), r),
    ensures
        weight_upto(lists, ps, j, r) == 0,
    decreases j,
{
    if j > 0 {
        assert(lists.take(j as int)[j - 1] == lists[j - 1]);
        assert forall|i: int| 0 <= i < j - 1 implies !(#[trigger] lists.take(j - 1)[i]).contains(r) by {
            assert(lists.take(j as int)[i] == lists.take(j - 1)[i]);
        }
        lemma_weight_unlisted(lists, ps, (j - 1) as nat, r);
    }
}

/// Where `x` stands in `v`, if it does.
pub fn position_of(v: &Vec<String>, x: &String) -> (r: Option<usize>)
    ensures
        r matches Some(t) ==> t < v.len() && v[t as int]@ == x@,
        r is None ==> !v.deep_view().contains(x@),
{
    let mut t: usize = 0;
    while t < v.len()
        invariant
            t <= v.len(),
            forall|i: int| 0 <= i < t ==> v[i]@ != x@,
        decreases v.len() - t,
    {
        if v[t] == *x {
            return Some(t);
        }
        t = t + 1;
    }
    proof {
        if v.deep_view().contains(x@) {
            let k = choose|k: int| 0 <= k < v.len() && v.deep_view()[k] == x@;
            assert(v.deep_view()[k] == v[k]@);
        }
    }
    None
}

/// The elements of `xs` once each, in order of first appearance.
pub fn distinct(xs: &Vec<String>) -> (r: Vec<String>)
    ensures
        r.deep_view().no_duplicates(),
        forall|s: Seq<char>| #[trigger] r.deep_view().contains(s) <==> xs.deep_view().contains(s),
{
    let mut r: Vec<String> = Vec::new();
    let mut i: usize = 0;
    while i < xs.len()
        invariant
            i <= xs.len(),
            r.deep_view().no_duplicates(),
            forall|s: Seq<char>| #[trigger] r.deep_view().contains(s) <==> xs.deep_view().take(i as int).contains(s),
        decreases xs.len() - i,
    {
        let ghost before = r.deep_view();
        assert(xs.deep_view().take(i + 1) =~= xs.deep_view().take(i as int).push(xs[i as int]@));
        match position_of(&r, &xs[i]) {
            Some(t) => {
                assert(r.deep_view()[t as int] == r[t as int]@);
            },
            None => {
                r.push(xs[i].clone());
                assert(r.deep_view() =~= before.push(xs[i as int]@));
            },
        }
        i = i + 1;
    }
    assert(xs.deep_view().take(xs.len() as int) =~= xs.deep_view());
    r
}

/// Every matched reference once, with its score.
pub fn tally(ps: &Vec<Phrase>, lists: &Vec<Vec<String>>) -> (res: (Vec<String>, Vec<usize>))
    requires
        ps.len() == lists.len(),
        total_weight(phrase_views(ps@)) <= usize::MAX,
    ensures
        res.0.len() == res.1.len(),
        res.0.deep_view().no_duplicates(),
        forall|r: Seq<char>| #[trigger] res.0.deep_view().contains(r) <==> listed(lists.deep_view(), r),
        forall|t: int|
            0 <= t < res.0.len() ==> res.1[t] as nat == weight_of(
                lists.deep_view(),
                phrase_views(ps@),
                #[trigger] res.0[t]@,
            ),
{
    let ghost lv = lists.deep_view();
    let ghost pv = phrase_views(ps@);
    let mut keys: Vec<String> = Vec::new();
    let mut ws: Vec<usize> = Vec::new();
    let mut j: usize = 0;
    while j < lists.len()
        invariant
            lv == lists.deep_view(),
            pv == phrase_views(ps@),
            ps.len() == lists.len(),
            total_weight(pv) <= usize::MAX,
            j <= lists.len(),
            keys.len() == ws.len(),
            keys.deep_view().no_duplicates(),
            forall|r: Seq<char>| #[trigger] keys.deep_view().contains(r) <==> listed(lv.take(j as int), r),
            forall|t: int|
                0 <= t < keys.len() ==> ws[t] as nat == weight_upto(lv, pv, j as nat, #[trigger] keys[t]@),
        decreases lists.len() - j,
    {
        let u = distinct(&lists[j]);
        let score = ps[j].score;
        let ghost uv = u.deep_view();
        proof {
            assert(lv[j as int] == lists[j as int].deep_view());
            lemma_total_weight_take(pv, j + 1);
            assert forall|r: Seq<char>| #[trigger] weight_upto(lv, pv, (j + 1) as nat, r) <= usize::MAX by {
                lemma_weight_bounded(lv, pv, (j + 1) as nat, r);
            }
            assert(uv.take(0) =~= Seq::<Seq<char>>::empty());
        }
        let mut m: usize = 0;
        while m < u.len()
            invariant
                lv == lists.deep_view(),
                pv == phrase_views(ps@),
                ps.len() == lists.len(),
                j < lists.len(),
                uv == u.deep_view(),
                uv.no_duplicates(),
                forall|s: Seq<char>| #[trigger] uv.contains(s) <==> lv[j as int].contains(s),
                score as nat == pv[j as int].1,
                forall|r: Seq<char>| #[trigger] weight_upto(lv, pv, (j + 1) as nat, r) <= usize::MAX,
                m <= u.len(),
                keys.len() == ws.len(),
                keys.deep_view().no_duplicates(),
                forall|r: Seq<char>|
                    #[trigger] keys.deep_view().contains(r) <==> (listed(lv.take(j as int), r) || uv.take(
                        m as int,
                    ).contains(r)),
                forall|t: int|
                    0 <= t < keys.len() ==> ws[t] as nat == weight_upto(lv, pv, j as nat, #[trigger] keys[t]@)
                        + if uv.take(m as int).contains(keys[t]@) {
                        pv[j as int].1
                    } else {
                        0
                    },
            decreases u.len() - m,
        {
            let ghost x = uv[m as int];
            assert(u[m as int]@ == x);
            assert(uv.take(m + 1) =~= uv.take(m as int).push(x));
            assert(!uv.take(m as int).contains(x)) by {
                if uv.take(m as int).contains(x) {
                    let k = choose|k: int| 0 <= k < m && uv.take(m as int)[k] == x;
                    assert(uv[k] == uv[m as int]);
                }
            }
            assert(uv.contains(x));
            let ghost kb = keys.deep_view();
            let ghost wb = ws@;
            match position_of(&keys, &u[m]) {
                Some(t) => {
                    assert(kb[t as int] == keys[t as int]@);
                    assert(kb.contains(x));
                    assert(weight_upto(lv, pv, (j + 1) as nat, x) == weight_upto(lv, pv, j as nat, x) + pv[j as int].1);
                    let w = ws[t] + score;
                    ws.set(t, w);
                    assert forall|i: int| 0 <= i < keys.len() && i != t implies keys[i]@ != x by {
                        assert(kb[i] == keys[i]@);
                        assert(kb[t as int] == keys[t as int]@);
                    }
                },
                None => {
                    assert(!listed(lv.take(j as int), x));
                    proof {
                        lemma_weight_unlisted(lv, pv, j as nat, x);
                    }
                    keys.push(u[m].clone());
                    ws.push(score);
                    assert(keys.deep_view() =~= kb.push(x));
                    assert forall|i: int| 0 <= i < kb.len() implies keys[i]@ != x by {
                        assert(kb[i] == keys[i]@);
                    }
                },
            }
            m = m + 1;
        }
        proof {
            assert(uv.take(u.len() as int) =~= uv);
            assert(lv.take(j + 1) =~= lv.take(j as int).push(lv[j as int]));
            assert forall|r: Seq<char>| listed(lv.take(j + 1), r) <==> (listed(lv.take(j as int), r) || lv[j as int].contains(r)) by {
                if listed(lv.take(j + 1), r) {
                    let i = choose|i: int| 0 <= i < j + 1 && #[trigger] lv.take(j + 1)[i].contains(r);
                    if i < j {
                        assert(lv.take(j as int)[i] == lv.take(j + 1)[i]);
                    }
                }
                if listed(lv.take(j as int), r) {
                    let i = choose|i: int| 0 <= i < j && #[trigger] lv.take(j as int)[i].contains(r);
                    assert(lv.take(j + 1)[i] == lv.take(j as int)[i]);
                }
                if lv[j as int].contains(r) {
                    assert(lv.take(j + 1)[j as int] == lv[j as int]);
                }
            }
        }
        j = j + 1;
    }
    assert(lv.take(lists.len() as int) =~= lv);
    (keys, ws)
}

/// The references that score highest, in ascending order: winner takes all.
pub fn top_refs(ps: &Vec<Phrase>, lists: &Vec<Vec<String>>) -> (r: Vec<String>)
    requires
        ps.len() == lists.len(),
        total_weight(phrase_views(ps@)) <= usize::MAX,
    ensures
        strictly_ascending(r.deep_view()),
        forall|s: Seq<char>|
            #[trigger] r.deep_view().contains(s) <==> is_top(lists.deep_view(), phrase_views(ps@), s),
        r.len() == 0 <==> forall|s: Seq<char>| !#[trigger] listed(lists.deep_view(), s),
{
    let ghost lv = lists.deep_view();
    let ghost pv = phrase_views(ps@);
    let (keys, ws) = tally(ps, lists);
    let ghost kv = keys.deep_view();
    let mut best: usize = 0;
    let mut t: usize = 0;
    while t < ws.len()
        invariant
            t <= ws.len(),
            forall|i: int| 0 <= i < t ==> ws[i] <= best,
            t > 0 ==> exists|i: int| 0 <= i < t && ws[i] == best,
        decreases ws.len() - t,
    {
        if ws[t] > best || t == 0 {
            best = ws[t];
        }
        t = t + 1;
    }
    let mut out: Vec<String> = Vec::new();
    let mut t: usize = 0;
    while t < keys.len()
        invariant
            kv == keys.deep_view(),
            kv.no_duplicates(),
            keys.len() == ws.len(),
            forall|i: int| 0 <= i < ws.len() ==> ws[i] <= best,
            ws.len() > 0 ==> exists|i: int| 0 <= i < ws.len() && ws[i] == best,
            t <= keys.len(),
            strictly_ascending(out.deep_view()),
            forall|s: Seq<char>|
                #[trigger] out.deep_view().contains(s) <==> exists|i: int|
                    0 <= i < t && keys[i]@ == s && ws[i] == best,
        decreases keys.len() - t,
    {
        let ghost before = out.deep_view();
        if ws[t] == best {
            assert(!before.contains(keys[t as int]@)) by {
                if before.contains(keys[t as int]@) {
                    let i = choose|i: int| 0 <= i < t && keys[i]@ == keys[t as int]@ && ws[i] == best;
                    assert(kv[i] == keys[i]@);
                    assert(kv[t as int] == keys[t as int]@);
                }
            }
            insert_ascending(&mut out, keys[t].clone());
        }
        assert forall|s: Seq<char>|
            #[trigger] out.deep_view().contains(s) <==> exists|i: int|
                0 <= i < t + 1 && keys[i]@ == s && ws[i] == best by {
            if exists|i: int| 0 <= i < t + 1 && keys[i]@ == s && ws[i] == best {
                let i = choose|i: int| 0 <= i < t + 1 && keys[i]@ == s && ws[i] == best;
                if i < t {
                    assert(before.contains(s));
                }
            }
        }
        t = t + 1;
    }
    proof {
        assert forall|s: Seq<char>| #[trigger] out.deep_view().contains(s) <==> is_top(lv, pv, s) by {
            if out.deep_view().contains(s) {
                let i = choose|i: int| 0 <= i < keys.len() && keys[i]@ == s && ws[i] == best;
                assert(kv[i] == s);
                assert(kv.contains(s));
                assert(listed(lv, s));
                assert forall|s2: Seq<char>| #[trigger] listed(lv, s2) implies weight_of(lv, pv, s2) <= weight_of(lv, pv, s) by {
                    assert(kv.contains(s2));
                    let i2 = choose|i2: int| 0 <= i2 < kv.len() && kv[i2] == s2;
                    assert(kv[i2] == keys[i2]@);
                }
            }
            if is_top(lv, pv, s) {
                assert(kv.contains(s));
                let i = choose|i: int| 0 <= i < kv.len() && kv[i] == s;
                assert(kv[i] == keys[i]@);
                let i2 = choose|i2: int| 0 <= i2 < ws.len() && ws[i2] == best;
                assert(kv[i2] == keys[i2]@);
                assert(kv.contains(keys[i2]@));
                assert(listed(lv, keys[i2]@));
                assert(ws[i2] as nat == weight_of(lv, pv, keys[i2]@));
                assert(ws[i] as nat == weight_of(lv, pv, keys[i]@));
                assert(weight_of(lv, pv, keys[i2]@) <= weight_of(lv, pv, s));
                assert(ws[i] == best);
                assert(exists|i: int| 0 <= i < keys.len() && keys[i]@ == s && ws[i] == best);
            }
        }
        if exists|s: Seq<char>| #[trigger] listed(lv, s) {
            let s = choose|s: Seq<char>| #[trigger] listed(lv, s);
            assert(kv.contains(s));
            let i2 = choose|i2: int| 0 <= i2 < ws.len() && ws[i2] == best;
            assert(out.deep_view().contains(keys[i2]@));
        } else {
            if out.len() > 0 {
                assert(out.deep_view().contains(out.deep_view()[0]));
                let i = choose|i: int| 0 <= i < keys.len() && keys[i]@ == out.deep_view()[0] && ws[i] == best;
                assert(kv[i] == keys[i]@);
                assert(kv.contains(keys[i]@));
            }
        }
    }
    out
}

} // verus!
