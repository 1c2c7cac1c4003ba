//! Overlapping n-gram phrases of a query, each weighted by its length.
use vstd::prelude::*;
use vstd::string::*;
use crate::text::{join_words, query_words, words_of};

verus! {

/// The weight of a phrase of `k` words.
pub open spec fn score(k: nat) -> nat {
    ((10 + k) * k) as nat
}

/// A phrase of the query and its weight.
pub struct Phrase {
    pub text: String,
    pub score: usize,
}

impl View for Phrase {
    type V = (Seq<char>, nat);

    open spec fn view(&self) -> (Seq<char>, nat) {
        (self.text@, self.score as nat)
    }
}

pub open spec fn phrase_views(ps: Seq<Phrase>) -> Seq<(Seq<char>, nat)> {
    ps.map_values(|p: Phrase| p@)
}

/// How many phrases start at word `i` of `n`.
pub open spec fn span(n: nat, phrase_max: nat, i: nat) -> nat {
    if phrase_max <= n - i {
        phrase_max
    } else {
        (n - i) as nat
    }
}

/// The phrases that start at word `i`: lengths 1 up to `span`, shortest first.
pub open spec fn phrases_at(ws: Seq<Seq<char>>, phrase_max: nat, i: int) -> Seq<(Seq<char>, nat)> {
    Seq::new(
        span(ws.len(), phrase_max, i as nat),
        |k: int| (join_words(ws.subrange(i, i + k + 1)), score((k + 1) as nat)),
    )
}

/// The phrases that start before word `i`, by start word.
pub open spec fn phrases_before(ws: Seq<Seq<char>>, phrase_max: nat, i: nat) -> Seq<(Seq<char>, nat)>
    decreases i,
{
    if i == 0 {
        Seq::empty()
    } else {
        phrases_before(ws, phrase_max, (i - 1) as nat) + phrases_at(ws, phrase_max, i - 1)
    }
}

/// Every phrase of the query, with its weight, in order of start word then length.
pub open spec fn query_phrases(q: Seq<char>, word_max: nat, phrase_max: nat) -> Seq<(Seq<char>, nat)> {
    let ws = query_words(q, word_max);
    phrases_before(ws, phrase_max, ws.len())
}

/// The sum of the weights.
pub open spec fn total_weight(ps: Seq<(Seq<char>, nat)>) -> nat
    decreases ps.len(),
{
    if ps.len() == 0 {
        0
    } else {
        total_weight(ps.drop_last()) + ps.last().1
    }
}

/// A longer phrase always weighs more.
pub proof fn lemma_score_strictly_increasing(j: nat, k: nat)
    requires
        1 <= j < k,
    ensures
        score(j) < score(k),
{
    assert((10 + j) * j < (10 + k) * k) by (nonlinear_arith)
        requires
            1 <= j < k,
    ;
}

pub proof fn lemma_total_weight_take(ps: Seq<(Seq<char>, nat)>, t: int)
    requires
        0 <= t <= ps.len(),
    ensures
        total_weight(ps.take(t)) <= total_weight(ps),
    decreases ps.len(),
{
    if t < ps.len() {
        assert(ps.drop_last().take(t) =~= ps.take(t));
        lemma_total_weight_take(ps.drop_last(), t);
    } else {
        assert(ps.take(t) =~= ps);
    }
}

pub proof fn lemma_phrases_before_prefix(ws: Seq<Seq<char>>, phrase_max: nat, i: nat, j: nat)
    requires
        i <= j,
    ensures
        phrases_before(ws, phrase_max, j).take(phrases_before(ws, phrase_max, i).len() as int)
            == phrases_before(ws, phrase_max, i),
        phrases_before(ws, phrase_max, i).len() <= phrases_before(ws, phrase_max, j).len(),
    decreases j,
{
    if i < j {
        lemma_phrases_before_prefix(ws, phrase_max, i, (j - 1) as nat);
        let a = phrases_before(ws, phrase_max, (j - 1) as nat);
        let b = phrases_at(ws, phrase_max, j - 1);
        let l = phrases_before(ws, phrase_max, i).len() as int;
        assert((a + b).take(l) =~= a.take(l));
    } else {
        assert(phrases_before(ws, phrase_max, i).take(phrases_before(ws, phrase_max, i).len() as int)
            =~= phrases_before(ws, phrase_max, i));
    }
}


/// The phrases emitted up to and including the `k`-th one starting at word `i`
/// weigh no more than all of them.
pub proof fn lemma_next_phrase_fits(ws: Seq<Seq<char>>, phrase_max: nat, i: nat, k: nat)
    requires
        i < ws.len(),
        k < span(ws.len(), phrase_max, i),
    ensures
        ({
            let e = phrases_before(ws, phrase_max, i) + phrases_at(ws, phrase_max, i as int).take(k as int);
            let next = phrases_at(ws, phrase_max, i as int)[k as int];
            &&& next.1 == score(k + 1)
            &&& e.push(next) == phrases_before(ws, phrase_max, i) + phrases_at(ws, phrase_max, i as int).take((k + 1) as int)
            &&& total_weight(e.push(next)) == total_weight(e) + next.1
            &&& total_weight(e) + next.1 <= total_weight(phrases_before(ws, phrase_max, ws.len()))
        }),
{
    let base = phrases_before(ws, phrase_max, i);
    let here = phrases_at(ws, phrase_max, i as int);
    let e = base + here.take(k as int);
    let next = here[k as int];
    let all = phrases_before(ws, phrase_max, ws.len());
    lemma_phrases_before_prefix(ws, phrase_max, i + 1, ws.len());
    let upto = phrases_before(ws, phrase_max, i + 1);
    let l = (base.len() + k + 1) as int;
    assert(e.push(next) =~= base + here.take((k + 1) as int));
    assert(upto.take(l) =~= e.push(next));
    assert(all.take(l) =~= upto.take(l));
    lemma_total_weight_take(all, l);
    assert(e.push(next).drop_last() =~= e);
}

/// The phrases of `q` with their weights, or `None` where the weights together
/// exceed what a `usize` holds.
pub fn phrases(q: &str, word_max: usize, phrase_max: usize) -> (r: Option<Vec<Phrase>>)
    ensures
        r is None <==> total_weight(query_phrases(q@, word_max as nat, phrase_max as nat)) > usize::MAX,
        r matches Some(ps) ==> phrase_views(ps@) == query_phrases(q@, word_max as nat, phrase_max as nat),
{
    let ws = words_of(q, word_max);
    let n = ws.len();
    let ghost wv = ws.deep_view();
    let ghost pm = phrase_max as nat;
    let ghost all = phrases_before(wv, pm, n as nat);
    let mut out: Vec<Phrase> = Vec::new();
    let mut total: usize = 0;
    let mut i: usize = 0;
    while i < n
        invariant
            n == ws.len() == wv.len(),
            wv == ws.deep_view(),
            wv == query_words(q@, word_max as nat),
            pm == phrase_max as nat,
            all == phrases_before(wv, pm, n as nat),
            i <= n,
            phrase_views(out@) == phrases_before(wv, pm, i as nat),
            total as nat == total_weight(phrase_views(out@)),
        decreases n - i,
    {
        let m: usize = if phrase_max <= n - i { phrase_max } else { n - i };
        let ghost base = phrases_before(wv, pm, i as nat);
        let ghost here = phrases_at(wv, pm, i as int);
        let mut text = String::new();
        let mut k: usize = 0;
        while k < m
            invariant
                n == ws.len() == wv.len(),
                wv == ws.deep_view(),
                wv == query_words(q@, word_max as nat),
                pm == phrase_max as nat,
                all == phrases_before(wv, pm, n as nat),
                i < n,
                m == span(n as nat, pm, i as nat),
                base == phrases_before(wv, pm, i as nat),
                here == phrases_at(wv, pm, i as int),
                k <= m,
                phrase_views(out@) == base + here.take(k as int),
                total as nat == total_weight(phrase_views(out@)),
                k > 0 ==> text@ == join_words(wv.subrange(i as int, i + k)),
            decreases m - k,
        {
            if k == 0 {
                text = ws[i].clone();
                assert(wv.subrange(i as int, i + 1) =~= seq![wv[i as int]]);
            } else {
                text.append(" ");
                text.append(ws[i + k].as_str());
                proof {
                    reveal_strlit(" ");
                    assert(wv.subrange(i as int, i + k + 1).drop_last() =~= wv.subrange(i as int, i + k));
                }
                assert(text@ =~= join_words(wv.subrange(i as int, i + k + 1)));
            }
            let len: usize = k + 1;
            let ghost emitted = phrase_views(out@);
            let ghost next = here[k as int];
            proof {
                lemma_next_phrase_fits(wv, pm, i as nat, k as nat);
            }
            let grown = match 10usize.checked_add(len) {
                Some(g) => g,
                None => {
                    assert((10 + len) * len >= 10 + len) by (nonlinear_arith)
                        requires
                            len >= 1,
                    ;
                    return None;
                },
            };
            let weight = match grown.checked_mul(len) {
                Some(w) => w,
                None => {
                    assert(score(len as nat) == grown * len);
                    return None;
                },
            };
            let sum = match total.checked_add(weight) {
                Some(t) => t,
                None => {
                    return None;
                },
            };
            out.push(Phrase { text: text.clone(), score: weight });
            total = sum;
            assert(phrase_views(out@) =~= emitted.push(next));
            k = k + 1;
        }
        assert(here.take(m as int) =~= here);
        i = i + 1;
    }
    Some(out)
}

} // verus!
