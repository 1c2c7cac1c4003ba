//! Splitting query text into words and joining words back into phrases.
use vstd::prelude::*;
use vstd::string::*;

verus! {

/// The pieces of `s` between single spaces, as `str::split(" ")` yields them:
/// one more piece than there are spaces, empty pieces included.
pub open spec fn split_spaces(s: Seq<char>) -> Seq<Seq<char>>
    decreases s.len(),
{
    if s.len() == 0 {
        seq![Seq::empty()]
    } else {
        let pieces = split_spaces(s.drop_last());
        if s.last() == ' ' {
            pieces.push(Seq::empty())
        } else {
            pieces.update(pieces.len() - 1, pieces.last().push(s.last()))
        }
    }
}

/// The non-empty pieces, in order.
pub open spec fn drop_empty(ps: Seq<Seq<char>>) -> Seq<Seq<char>>
    decreases ps.len(),
{
    if ps.len() == 0 {
        Seq::empty()
    } else {
        let rest = drop_empty(ps.drop_last());
        if ps.last().len() == 0 {
            rest
        } else {
            rest.push(ps.last())
        }
    }
}

/// The words of a query: its non-empty space-separated pieces, at most `word_max` of them.
pub open spec fn query_words(q: Seq<char>, word_max: nat) -> Seq<Seq<char>> {
    let ws = drop_empty(split_spaces(q));
    if ws.len() <= word_max {
        ws
    } else {
        ws.take(word_max as int)
    }
}

/// Words joined by single spaces.
pub open spec fn join_words(ws: Seq<Seq<char>>) -> Seq<char>
    decreases ws.len(),
{
    if ws.len() == 0 {
        Seq::empty()
    } else if ws.len() == 1 {
        ws[0]
    } else {
        join_words(ws.drop_last()) + seq![' '] + ws.last()
    }
}

/// Splits `s` at every single space, keeping empty pieces.
pub fn split_on_space(s: &str) -> (pieces: Vec<String>)
    ensures
        pieces.deep_view() == split_spaces(s@),
{
    let n = s.unicode_len();
    let mut pieces: Vec<String> = Vec::new();
    let mut start: usize = 0;
    let mut i: usize = 0;
    assert(s@.take(0) =~= Seq::<char>::empty());
    assert(pieces.deep_view().push(s@.subrange(0, 0)) =~= seq![Seq::<char>::empty()]);
    while i < n
        invariant
            n == s@.len(),
            start <= i <= n,
            split_spaces(s@.take(i as int)) == pieces.deep_view().push(s@.subrange(start as int, i as int)),
        decreases n - i,
    {
        let c = s.get_char(i);
        let ghost before = pieces.deep_view();
        assert(s@.take(i + 1).drop_last() =~= s@.take(i as int));
        assert(s@.take(i + 1).last() == c);
        if c == ' ' {
            let piece = String::from_str(s.substring_char(start, i));
            pieces.push(piece);
            assert(pieces.deep_view() =~= before.push(s@.subrange(start as int, i as int)));
            start = i + 1;
            assert(s@.subrange(start as int, i + 1) =~= Seq::<char>::empty());
        } else {
            assert(s@.subrange(start as int, i + 1) =~= s@.subrange(start as int, i as int).push(c));
            assert(before.push(s@.subrange(start as int, i as int)).update(
                before.len() as int, s@.subrange(start as int, i + 1)) =~= before.push(s@.subrange(start as int, i + 1)));
        }
        i = i + 1;
    }
    let ghost before = pieces.deep_view();
    pieces.push(String::from_str(s.substring_char(start, n)));
    assert(s@.take(n as int) =~= s@);
    assert(pieces.deep_view() =~= before.push(s@.subrange(start as int, n as int)));
    pieces
}

/// The words of `q`: its non-empty space-separated pieces, the first `word_max` of them.
pub fn words_of(q: &str, word_max: usize) -> (ws: Vec<String>)
    ensures
        ws.deep_view() == query_words(q@, word_max as nat),
{
    let pieces = split_on_space(q);
    let mut ws: Vec<String> = Vec::new();
    let mut j: usize = 0;
    while j < pieces.len()
        invariant
            j <= pieces.len(),
            pieces.deep_view() == split_spaces(q@),
            ws.deep_view() == drop_empty(pieces.deep_view().take(j as int)),
        decreases pieces.len() - j,
    {
        let ghost before = ws.deep_view();
        assert(pieces.deep_view().take(j + 1).drop_last() =~= pieces.deep_view().take(j as int));
        assert(pieces.deep_view().take(j + 1).last() == pieces[j as int]@);
        if pieces[j].unicode_len() > 0 {
            ws.push(pieces[j].clone());
            assert(ws.deep_view() =~= before.push(pieces[j as int]@));
        }
        j = j + 1;
    }
    assert(pieces.deep_view().take(pieces.len() as int) =~= pieces.deep_view());
    if ws.len() > word_max {
        let ghost full = ws.deep_view();
        ws.truncate(word_max);
        assert(ws.deep_view() =~= full.take(word_max as int));
    }
    ws
}

/// A copy of `v`.
pub fn copy_strings(v: &Vec<String>) -> (r: Vec<String>)
    ensures
        r.deep_view() == v.deep_view(),
{
    let mut r: Vec<String> = Vec::new();
    let mut i: usize = 0;
    while i < v.len()
        invariant
            i <= v.len(),
            r.deep_view() == v.deep_view().take(i as int),
        decreases v.len() - i,
    {
        let ghost before = r.deep_view();
        let c = v[i].clone();
        assert(v.deep_view()[i as int] == v[i as int]@);
        r.push(c);
        assert(r.deep_view() =~= before.push(v[i as int]@));
        assert(r.deep_view() =~= v.deep_view().take(i + 1));
        i = i + 1;
    }
    assert(v.deep_view().take(v.len() as int) =~= v.deep_view());
    r
}

} // verus!
