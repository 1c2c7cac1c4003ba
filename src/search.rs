//! The ranker as a state machine: it decides, the caller performs the store
//! calls it asks for and reports what came back.
use vstd::prelude::*;
use crate::order::{lemma_lex_irreflexive, lex_lt, strictly_ascending};
use crate::phrases::{phrase_views, phrases, query_phrases, total_weight, Phrase};
use crate::rank::{is_top, listed, top_refs};
use crate::schemas::{AppError, ErrorKind};
use crate::text::copy_strings;

verus! {

/// Where a ranking stands: what it waits for.
#[derive(Clone, Copy, Debug, PartialEq, Eq, Structural)]
pub enum RankStage {
    AwaitCache,
    AwaitAliases,
    AwaitPostings,
    AwaitStore,
    Over,
}

/// What the store or the cache answered.
pub enum RankEvent {
    /// The cached references for the query; empty on a miss.
    Cached(Vec<String>),
    /// The alias set of each phrase asked for, in the same order; empty where none is recorded.
    Aliases(Vec<Vec<String>>),
    /// For each phrase asked for, the references posted under its tags.
    Postings(Vec<Vec<String>>),
    /// The cache write is over, whether or not it succeeded.
    Stored,
    /// A store or cache call failed.
    Failed(String),
}

/// What the caller is to do next.
pub enum RankAction {
    /// Read the alias set of each of these phrases.
    ReadAliases(Vec<String>),
    /// For each phrase, read the postings of each of its tags.
    ReadPostings(Vec<Vec<String>>),
    /// Remember these references for the query.
    WriteCache(Vec<String>),
    /// The ranking is done: these are the references.
    Finish(Vec<String>),
    /// The ranking failed.
    Abort(AppError),
}

/// The tags of each phrase: its aliases, or the phrase itself where it has none.
pub open spec fn tags_model(ps: Seq<(Seq<char>, nat)>, aliases: Seq<Seq<Seq<char>>>) -> Seq<Seq<Seq<char>>> {
    Seq::new(
        ps.len(),
        |j: int|
            if aliases[j].len() == 0 {
                seq![ps[j].0]
            } else {
                aliases[j]
            },
    )
}

/// The text of each phrase.
pub open spec fn phrase_texts(ps: Seq<(Seq<char>, nat)>) -> Seq<Seq<char>> {
    ps.map_values(|p: (Seq<char>, nat)| p.0)
}

/// `r` is the ranked outcome of phrases `ps` matching `lists`: the top-scoring
/// references, ascending.
pub open spec fn ranks(lists: Seq<Seq<Seq<char>>>, ps: Seq<(Seq<char>, nat)>, r: Seq<Seq<char>>) -> bool {
    &&& strictly_ascending(r)
    &&& forall|s: Seq<char>| #[trigger] r.contains(s) <==> is_top(lists, ps, s)
}

/// One ranking of one query.
pub struct Ranker {
    pub query: String,
    pub word_max: usize,
    pub phrase_max: usize,
    pub stage: RankStage,
    /// The phrases of the query, once the cache has missed.
    pub phrases: Vec<Phrase>,
    /// The ranked references, once they are known.
    pub refs: Vec<String>,
}

impl Ranker {
    pub open spec fn wf(&self) -> bool {
        (self.stage == RankStage::AwaitAliases || self.stage == RankStage::AwaitPostings) ==> {
            &&& phrase_views(self.phrases@) == query_phrases(self.query@, self.word_max as nat, self.phrase_max as nat)
            &&& total_weight(phrase_views(self.phrases@)) <= usize::MAX
        }
    }

    /// A ranking of `query` that first waits for the cache's answer.
    pub fn new(query: String, word_max: usize, phrase_max: usize) -> (r: Ranker)
        ensures
            r.wf(),
            r.query@ == query@,
            r.word_max == word_max,
            r.phrase_max == phrase_max,
            r.stage == RankStage::AwaitCache,
    {
        Ranker { query, word_max, phrase_max, stage: RankStage::AwaitCache, phrases: Vec::new(), refs: Vec::new() }
    }

    /// Takes in the answer to the last action and says what to do next.
    pub fn step(&mut self, event: RankEvent) -> (act: RankAction)
        requires
            old(self).wf(),
        ensures
            final(self).wf(),
            final(self).query@ == old(self).query@,
            final(self).word_max == old(self).word_max,
            final(self).phrase_max == old(self).phrase_max,
            // A cache hit is returned as it is, and nothing more is read.
            old(self).stage == RankStage::AwaitCache ==> (event is Cached && event->Cached_0.len() > 0 ==> {
                &&& act is Finish && act->Finish_0.deep_view() == event->Cached_0.deep_view()
                &&& final(self).stage == RankStage::Over
            }),
            // On a miss, or where the cache cannot be read, the phrases are resolved.
            old(self).stage == RankStage::AwaitCache ==> ((event is Cached && event->Cached_0.len() == 0)
                || event is Failed ==> {
                let ps = query_phrases(old(self).query@, old(self).word_max as nat, old(self).phrase_max as nat);
                if total_weight(ps) > usize::MAX {
                    &&& act matches RankAction::Abort(e) && e.kind == ErrorKind::InvalidInput
                    &&& final(self).stage == RankStage::Over
                } else if ps.len() == 0 {
                    &&& act matches RankAction::Finish(r) && r.len() == 0
                    &&& final(self).stage == RankStage::Over
                } else {
                    &&& act matches RankAction::ReadAliases(texts) && texts.deep_view() == phrase_texts(ps)
                    &&& final(self).stage == RankStage::AwaitAliases
                    &&& phrase_views(final(self).phrases@) == ps
                }
            }),
            old(self).stage == RankStage::AwaitAliases ==> (event is Aliases && event->Aliases_0.len()
                == old(self).phrases.len() ==> {
                &&& act is ReadPostings && act->ReadPostings_0.deep_view() == tags_model(
                    phrase_views(old(self).phrases@),
                    event->Aliases_0.deep_view(),
                )
                &&& final(self).stage == RankStage::AwaitPostings
                &&& final(self).phrases@ == old(self).phrases@
            }),
            // The top-scoring references are remembered only where there are some.
            old(self).stage == RankStage::AwaitPostings ==> (event is Postings && event->Postings_0.len()
                == old(self).phrases.len() ==> {
                let pv = phrase_views(old(self).phrases@);
                let p = event->Postings_0;
                if forall|s: Seq<char>| !#[trigger] listed(p.deep_view(), s) {
                    &&& act matches RankAction::Finish(r) && r.len() == 0
                    &&& final(self).stage == RankStage::Over
                } else {
                    &&& act is WriteCache
                    &&& act->WriteCache_0.len() > 0
                    &&& ranks(p.deep_view(), pv, act->WriteCache_0.deep_view())
                    &&& final(self).stage == RankStage::AwaitStore
                    &&& final(self).refs.deep_view() == act->WriteCache_0.deep_view()
                }
            }),
            // The outcome of a cache write does not change the result.
            old(self).stage == RankStage::AwaitStore ==> (event is Stored || event is Failed ==> {
                &&& act matches RankAction::Finish(r) && r.deep_view() == old(self).refs.deep_view()
                &&& final(self).stage == RankStage::Over
            }),
            // A failed store read ends the ranking.
            (old(self).stage == RankStage::AwaitAliases || old(self).stage == RankStage::AwaitPostings) ==> (
            event is Failed ==> {
                &&& act is Abort
                &&& act->Abort_0.kind == ErrorKind::StoreUnavailable
                &&& act->Abort_0.reason@ == event->Failed_0@
                &&& final(self).stage == RankStage::Over
            }),
            // Anything else is out of turn.
            !expected(old(self).stage, old(self).phrases.len() as nat, event) ==> {
                &&& act matches RankAction::Abort(e) && e.kind == ErrorKind::InvalidInput
                &&& final(self).stage == RankStage::Over
            },
    {
        match event {
            RankEvent::Cached(c) if self.stage == RankStage::AwaitCache => {
                if c.len() > 0 {
                    self.stage = RankStage::Over;
                    RankAction::Finish(c)
                } else {
                    self.resolve()
                }
            },
            RankEvent::Failed(m) => {
                if self.stage == RankStage::AwaitCache {
                    self.resolve()
                } else if self.stage == RankStage::AwaitStore {
                    self.stage = RankStage::Over;
                    RankAction::Finish(copy_strings(&self.refs))
                } else if self.stage == RankStage::AwaitAliases || self.stage == RankStage::AwaitPostings {
                    self.stage = RankStage::Over;
                    RankAction::Abort(AppError { kind: ErrorKind::StoreUnavailable, reason: m })
                } else {
                    self.out_of_turn()
                }
            },
            RankEvent::Aliases(a) if self.stage == RankStage::AwaitAliases && a.len() == self.phrases.len() => {
                let tags = self.tags_of(a);
                self.stage = RankStage::AwaitPostings;
                RankAction::ReadPostings(tags)
            },
            RankEvent::Postings(p) if self.stage == RankStage::AwaitPostings && p.len() == self.phrases.len() => {
                let r = top_refs(&self.phrases, &p);
                if r.len() == 0 {
                    self.stage = RankStage::Over;
                    RankAction::Finish(r)
                } else {
                    self.refs = copy_strings(&r);
                    self.stage = RankStage::AwaitStore;
                    RankAction::WriteCache(r)
                }
            },
            RankEvent::Stored if self.stage == RankStage::AwaitStore => {
                self.stage = RankStage::Over;
                RankAction::Finish(copy_strings(&self.refs))
            },
            _ => self.out_of_turn(),
        }
    }

    fn out_of_turn(&mut self) -> (act: RankAction)
        ensures
            final(self).query == old(self).query,
            final(self).word_max == old(self).word_max,
            final(self).phrase_max == old(self).phrase_max,
            final(self).stage == RankStage::Over,
            act matches RankAction::Abort(e) && e.kind == ErrorKind::InvalidInput,
    {
        self.stage = RankStage::Over;
        RankAction::Abort(AppError::new(ErrorKind::InvalidInput, "answer out of turn"))
    }

    /// After a cache miss: the phrases to resolve, if there are any.
    fn resolve(&mut self) -> (act: RankAction)
        ensures
            final(self).wf(),
            final(self).query == old(self).query,
            final(self).word_max == old(self).word_max,
            final(self).phrase_max == old(self).phrase_max,
            ({
                let ps = query_phrases(old(self).query@, old(self).word_max as nat, old(self).phrase_max as nat);
                if total_weight(ps) > usize::MAX {
                    &&& act matches RankAction::Abort(e) && e.kind == ErrorKind::InvalidInput
                    &&& final(self).stage == RankStage::Over
                } else if ps.len() == 0 {
                    &&& act matches RankAction::Finish(r) && r.len() == 0
                    &&& final(self).stage == RankStage::Over
                } else {
                    &&& act matches RankAction::ReadAliases(texts) && texts.deep_view() == phrase_texts(ps)
                    &&& final(self).stage == RankStage::AwaitAliases
                    &&& phrase_views(final(self).phrases@) == ps
                }
            }),
    {
        match phrases(self.query.as_str(), self.word_max, self.phrase_max) {
            None => {
                self.stage = RankStage::Over;
                RankAction::Abort(AppError::new(ErrorKind::InvalidInput, "query too long to score"))
            },
            Some(ps) => {
                if ps.len() == 0 {
                    self.stage = RankStage::Over;
                    return RankAction::Finish(Vec::new());
                }
                let ghost pv = phrase_views(ps@);
                let mut texts: Vec<String> = Vec::new();
                let mut j: usize = 0;
                while j < ps.len()
                    invariant
                        j <= ps.len(),
                        pv == phrase_views(ps@),
                        texts.deep_view() == phrase_texts(pv.take(j as int)),
                    decreases ps.len() - j,
                {
                    let ghost before = texts.deep_view();
                    let t = ps[j].text.clone();
                    assert(pv[j as int] == ps[j as int]@);
                    texts.push(t);
                    assert(texts.deep_view() =~= before.push(pv[j as int].0));
                    assert(texts.deep_view() =~= phrase_texts(pv.take(j + 1)));
                    j = j + 1;
                }
                assert(pv.take(ps.len() as int) =~= pv);
                self.phrases = ps;
                self.stage = RankStage::AwaitAliases;
                RankAction::ReadAliases(texts)
            },
        }
    }

    /// The tags of each phrase, given its aliases.
    fn tags_of(&self, aliases: Vec<Vec<String>>) -> (tags: Vec<Vec<String>>)
        requires
            aliases.len() == self.phrases.len(),
        ensures
            tags.deep_view() == tags_model(phrase_views(self.phrases@), aliases.deep_view()),
    {
        let ghost pv = phrase_views(self.phrases@);
        let ghost av = aliases.deep_view();
        let ghost model = tags_model(pv, av);
        let n = aliases.len();
        let mut rest = aliases;
        let mut tags: Vec<Vec<String>> = Vec::new();
        let mut j: usize = 0;
        while rest.len() > 0
            invariant
                n == av.len() == pv.len() == self.phrases.len(),
                pv == phrase_views(self.phrases@),
                j <= n,
                rest.len() == n - j,
                forall|i: int| 0 <= i < rest.len() ==> #[trigger] rest[i].deep_view() == av[j + i],
                model == tags_model(pv, av),
                tags.deep_view() == model.take(j as int),
            decreases rest.len(),
        {
            let ghost before = tags.deep_view();
            let ghost old_rest = rest@;
            let a = rest.remove(0);
            assert(a.deep_view() == av[j as int]) by {
                assert(old_rest[0].deep_view() == av[j + 0]);
            }
            assert forall|i: int| 0 <= i < rest.len() implies #[trigger] rest[i].deep_view() == av[j + 1 + i] by {
                assert(rest[i] == old_rest[i + 1]);
                assert(old_rest[i + 1].deep_view() == av[j + (i + 1)]);
            }
            let t = if a.len() == 0 {
                let mut own: Vec<String> = Vec::new();
                own.push(self.phrases[j].text.clone());
                assert(pv[j as int] == self.phrases[j as int]@);
                assert(own.deep_view() =~= seq![pv[j as int].0]);
                own
            } else {
                a
            };
            tags.push(t);
            assert(tags.deep_view() =~= before.push(model[j as int]));
            assert(model.take(j + 1) =~= model.take(j as int).push(model[j as int]));
            j = j + 1;
        }
        assert(model.take(n as int) =~= model);
        tags
    }
}

/// Whether `event` answers what a ranking at `stage` asked for.
pub open spec fn expected(stage: RankStage, n_phrases: nat, event: RankEvent) -> bool {
    match stage {
        RankStage::AwaitCache => event is Cached || event is Failed,
        RankStage::AwaitAliases => (event matches RankEvent::Aliases(a) && a.len() == n_phrases) || event is Failed,
        RankStage::AwaitPostings => (event matches RankEvent::Postings(p) && p.len() == n_phrases) || event is Failed,
        RankStage::AwaitStore => event is Stored || event is Failed,
        RankStage::Over => false,
    }
}

/// Where no phrase matched any reference, nothing ranks, so nothing is cached.
pub proof fn lemma_no_postings_rank_nothing(lists: Seq<Seq<Seq<char>>>, ps: Seq<(Seq<char>, nat)>, r: Seq<Seq<char>>)
    requires
        forall|j: int| 0 <= j < lists.len() ==> #[trigger] lists[j].len() == 0,
        ranks(lists, ps, r),
    ensures
        forall|s: Seq<char>| !#[trigger] listed(lists, s),
        r.len() == 0,
{
    assert forall|s: Seq<char>| !#[trigger] listed(lists, s) by {
        if listed(lists, s) {
            let j = choose|j: int| 0 <= j < lists.len() && #[trigger] lists[j].contains(s);
            assert(lists[j].len() == 0);
        }
    }
    if r.len() > 0 {
        assert(r.contains(r[0]));
    }
}

/// A ranked outcome is sorted ascending and free of duplicates.
pub proof fn lemma_ranked_sorted_distinct(lists: Seq<Seq<Seq<char>>>, ps: Seq<(Seq<char>, nat)>, r: Seq<Seq<char>>)
    requires
        ranks(lists, ps, r),
    ensures
        forall|i: int, j: int| 0 <= i < j < r.len() ==> lex_lt(#[trigger] r[i], #[trigger] r[j]),
        r.no_duplicates(),
{
    assert forall|i: int, j: int| 0 <= i < r.len() && 0 <= j < r.len() && i != j implies r[i] != r[j] by {
        if i < j {
            assert(lex_lt(r[i], r[j]));
            lemma_lex_irreflexive(r[i]);
        } else {
            assert(lex_lt(r[j], r[i]));
            lemma_lex_irreflexive(r[j]);
        }
    }
}

} // verus!
