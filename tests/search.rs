use backend::pager::page_refs;
use backend::rank::top_refs;
use backend::phrases::Phrase;
use backend::schemas::ErrorKind;
use backend::search::{RankAction, RankEvent, RankStage, Ranker};
use std::collections::HashMap;

#[derive(Clone, Debug, PartialEq)]
struct TestItem {
    name: String,
    description: String,
}

struct TestStore {
    cached: Vec<String>,
    aliases: HashMap<String, Vec<String>>,
    tags: HashMap<String, Vec<String>>,
    items: HashMap<String, TestItem>,
    alias_reads: usize,
    postings_reads: usize,
    cache_writes: Vec<(String, Vec<String>)>,
}

impl TestStore {
    fn new() -> Self {
        TestStore {
            cached: vec![],
            aliases: HashMap::new(),
            tags: HashMap::new(),
            items: HashMap::new(),
            alias_reads: 0,
            postings_reads: 0,
            cache_writes: vec![],
        }
    }
}

fn rank(store: &mut TestStore, query: &str, word_max: usize, phrase_max: usize) -> Vec<String> {
    let mut ranker = Ranker::new(query.to_string(), word_max, phrase_max);
    let mut event = RankEvent::Cached(store.cached.clone());
    loop {
        match ranker.step(event) {
            RankAction::ReadAliases(phrases) => {
                store.alias_reads += phrases.len();
                event = RankEvent::Aliases(
                    phrases
                        .iter()
                        .map(|p| store.aliases.get(p).cloned().unwrap_or_default())
                        .collect(),
                );
            }
            RankAction::ReadPostings(tags) => {
                store.postings_reads += tags.len();
                event = RankEvent::Postings(
                    tags.iter()
                        .map(|ts| {
                            ts.iter()
                                .flat_map(|t| store.tags.get(t).cloned().unwrap_or_default())
                                .collect()
                        })
                        .collect(),
                );
            }
            RankAction::WriteCache(refs) => {
                store.cache_writes.push((query.to_string(), refs));
                event = RankEvent::Stored;
            }
            RankAction::Finish(refs) => return refs,
            RankAction::Abort(e) => panic!("ranking failed: {}", e.message()),
        }
    }
}

fn get_items_for_search(
    store: &mut TestStore,
    query: &str,
    word_max: usize,
    phrase_max: usize,
    result_max: usize,
    page_num: usize,
) -> (Vec<TestItem>, usize) {
    let refs = rank(store, query, word_max, phrase_max);
    let total = refs.len();
    let page = page_refs(&refs, result_max, page_num).unwrap();
    (page.iter().map(|r| store.items.get(r).cloned().unwrap()).collect(), total)
}

fn item(name: &str, description: &str) -> TestItem {
    TestItem { name: name.to_string(), description: description.to_string() }
}

fn strings(xs: &[&str]) -> Vec<String> {
    xs.iter().map(|x| x.to_string()).collect()
}

#[test]
fn test_search_cached_single() {
    let query = "butter";
    let item = item("Butter", "Some butter");
    let mut searcher = TestStore::new();
    searcher.cached = strings(&["1001"]);
    searcher.items.insert("1001".to_string(), item.clone());

    let research = get_items_for_search(&mut searcher, query, 1, 1, 1, 1);

    assert_eq!(research, (vec![item], 1));
    assert_eq!(searcher.alias_reads, 0);
    assert_eq!(searcher.postings_reads, 0);
}

#[test]
fn test_search_single_cache_miss() {
    let query = "butter";
    let item = item("Butter", "Some butter");
    let mut searcher = TestStore::new();
    searcher.aliases.insert("butter".to_owned(), strings(&["1"]));
    searcher.tags.insert("1".to_string(), strings(&["1001"]));
    searcher.items.insert("1001".to_string(), item.clone());

    let research = get_items_for_search(&mut searcher, query, 1, 1, 1, 1);

    assert_eq!(research, (vec![item], 1));
    assert_eq!(searcher.cache_writes, vec![("butter".to_string(), strings(&["1001"]))]);
}

#[test]
fn test_two_words_exact_match() {
    let query = "butter flour";
    let item = item("Butter flour", "Some butter flour");
    let mut searcher = TestStore::new();
    searcher.aliases.insert("butter".to_owned(), strings(&["1"]));
    searcher.aliases.insert("flour".to_owned(), strings(&["2"]));
    searcher.aliases.insert("butter flour".to_owned(), strings(&["3"]));
    searcher.tags.insert("3".to_string(), strings(&["1001"]));
    searcher.items.insert("1001".to_string(), item.clone());

    let research = get_items_for_search(&mut searcher, query, 2, 2, 1, 1);

    assert_eq!(research, (vec![item], 1));
}

#[test]
fn test_two_words_partial_match_join() {
    let query = "butter flour";
    let first_item = item("Butter", "Some butter");
    let second_item = item("Flour", "Some flour");
    let mut searcher = TestStore::new();
    searcher.aliases.insert("butter".to_owned(), strings(&["1"]));
    searcher.aliases.insert("flour".to_owned(), strings(&["2"]));
    searcher.tags.insert("1".to_string(), strings(&["1001"]));
    searcher.tags.insert("2".to_string(), strings(&["1002"]));
    searcher.items.insert("1001".to_string(), first_item.clone());
    searcher.items.insert("1002".to_string(), second_item.clone());

    let research = get_items_for_search(&mut searcher, query, 2, 2, 2, 1);

    assert_eq!(research, (vec![first_item, second_item], 2));
}

#[test]
fn two_word_match_beats_two_single_matches() {
    let mut searcher = TestStore::new();
    searcher.aliases.insert("butter".to_owned(), strings(&["1"]));
    searcher.aliases.insert("flour".to_owned(), strings(&["2"]));
    searcher.aliases.insert("butter flour".to_owned(), strings(&["3"]));
    searcher.tags.insert("1".to_string(), strings(&["1002"]));
    searcher.tags.insert("2".to_string(), strings(&["1002"]));
    searcher.tags.insert("3".to_string(), strings(&["1001"]));
    assert_eq!(rank(&mut searcher, "butter flour", 2, 2), strings(&["1001"]));
}

#[test]
fn empty_query_reads_nothing() {
    let mut searcher = TestStore::new();
    let research = get_items_for_search(&mut searcher, "", 20, 3, 18, 1);
    assert_eq!(research, (vec![], 0));
    assert_eq!(searcher.alias_reads, 0);
    assert_eq!(searcher.postings_reads, 0);
    assert!(searcher.cache_writes.is_empty());
}

#[test]
fn blank_query_is_empty() {
    let mut searcher = TestStore::new();
    assert_eq!(rank(&mut searcher, "   ", 20, 3), Vec::<String>::new());
    assert_eq!(searcher.alias_reads, 0);
}

#[test]
fn empty_postings_are_not_cached() {
    let mut searcher = TestStore::new();
    searcher.aliases.insert("butter".to_owned(), strings(&["1"]));
    assert_eq!(rank(&mut searcher, "butter cake", 5, 2), Vec::<String>::new());
    assert_eq!(searcher.postings_reads, 3);
    assert!(searcher.cache_writes.is_empty());
}

#[test]
fn phrase_without_alias_is_its_own_tag() {
    let mut searcher = TestStore::new();
    searcher.tags.insert("cake".to_string(), strings(&["c2", "c1", "c2"]));
    assert_eq!(rank(&mut searcher, "cake", 5, 2), strings(&["c1", "c2"]));
}

#[test]
fn ranked_refs_are_ascending_and_distinct() {
    let mut searcher = TestStore::new();
    searcher.tags.insert("a".to_string(), strings(&["zeta", "alpha", "mid"]));
    searcher.tags.insert("b".to_string(), strings(&["mid", "zeta", "alpha", "alpha"]));
    let refs = rank(&mut searcher, "a b", 5, 1);
    assert_eq!(refs, strings(&["alpha", "mid", "zeta"]));
}

#[test]
fn repeated_word_is_reinforced() {
    let mut searcher = TestStore::new();
    searcher.tags.insert("a".to_string(), strings(&["x"]));
    searcher.tags.insert("b".to_string(), strings(&["y"]));
    assert_eq!(rank(&mut searcher, "a b a", 5, 1), strings(&["x"]));
}

#[test]
fn top_refs_winner_takes_all() {
    let ps = vec![
        Phrase { text: "butter flour".to_string(), score: 24 },
        Phrase { text: "butter".to_string(), score: 11 },
        Phrase { text: "flour".to_string(), score: 11 },
    ];
    let lists = vec![strings(&["1001"]), strings(&["1002"]), strings(&["1002"])];
    assert_eq!(top_refs(&ps, &lists), strings(&["1001"]));
    let tie = vec![strings(&["1003"]), strings(&["1002"]), strings(&["1002", "1003"])];
    assert_eq!(top_refs(&ps, &tie), strings(&["1003"]));
    let none: Vec<Vec<String>> = vec![vec![], vec![], vec![]];
    assert!(top_refs(&ps, &none).is_empty());
}

#[test]
fn cache_write_failure_is_swallowed() {
    let mut ranker = Ranker::new("a".to_string(), 5, 1);
    assert!(matches!(ranker.step(RankEvent::Cached(vec![])), RankAction::ReadAliases(_)));
    assert!(matches!(ranker.step(RankEvent::Aliases(vec![vec![]])), RankAction::ReadPostings(_)));
    assert!(matches!(ranker.step(RankEvent::Postings(vec![strings(&["r"])])), RankAction::WriteCache(_)));
    match ranker.step(RankEvent::Failed("down".to_string())) {
        RankAction::Finish(refs) => assert_eq!(refs, strings(&["r"])),
        _ => panic!("expected the ranked references"),
    }
    assert_eq!(ranker.stage, RankStage::Over);
}

#[test]
fn unreadable_cache_counts_as_miss() {
    let mut ranker = Ranker::new("a b".to_string(), 5, 2);
    match ranker.step(RankEvent::Failed("down".to_string())) {
        RankAction::ReadAliases(phrases) => assert_eq!(phrases, strings(&["a", "a b", "b"])),
        _ => panic!("expected the phrases"),
    }
}

#[test]
fn store_failure_aborts() {
    let mut ranker = Ranker::new("a".to_string(), 5, 1);
    ranker.step(RankEvent::Cached(vec![]));
    match ranker.step(RankEvent::Failed("gone".to_string())) {
        RankAction::Abort(e) => {
            assert_eq!(e.kind, ErrorKind::StoreUnavailable);
            assert_eq!(e.message(), "gone");
        }
        _ => panic!("expected an abort"),
    }
}

#[test]
fn answer_out_of_turn_aborts() {
    let mut ranker = Ranker::new("a".to_string(), 5, 1);
    match ranker.step(RankEvent::Stored) {
        RankAction::Abort(e) => assert_eq!(e.kind, ErrorKind::InvalidInput),
        _ => panic!("expected an abort"),
    }
    let mut ranker = Ranker::new("a b".to_string(), 5, 1);
    ranker.step(RankEvent::Cached(vec![]));
    match ranker.step(RankEvent::Aliases(vec![vec![]])) {
        RankAction::Abort(e) => assert_eq!(e.kind, ErrorKind::InvalidInput),
        _ => panic!("expected an abort"),
    }
}

#[test]
fn aliases_replace_the_phrase() {
    let mut ranker = Ranker::new("a b".to_string(), 5, 1);
    ranker.step(RankEvent::Cached(vec![]));
    match ranker.step(RankEvent::Aliases(vec![strings(&["t1", "t2"]), vec![]])) {
        RankAction::ReadPostings(tags) => assert_eq!(tags, vec![strings(&["t1", "t2"]), strings(&["b"])]),
        _ => panic!("expected postings reads"),
    }
}

#[test]
fn pages_slice_the_ranking() {
    let refs = strings(&["a", "b", "c", "d", "e", "f", "g"]);
    assert_eq!(page_refs(&refs, 3, 1).unwrap(), strings(&["a", "b", "c"]));
    assert_eq!(page_refs(&refs, 3, 2).unwrap(), strings(&["d", "e", "f"]));
    assert_eq!(page_refs(&refs, 3, 3).unwrap(), strings(&["g"]));
    assert!(page_refs(&refs, 3, 4).unwrap().is_empty());
    assert!(page_refs(&refs, usize::MAX, usize::MAX).unwrap().is_empty());
}

#[test]
fn page_zero_is_invalid() {
    let refs = strings(&["a"]);
    assert_eq!(page_refs(&refs, 3, 0).unwrap_err().kind, ErrorKind::InvalidInput);
}
