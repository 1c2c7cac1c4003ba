use backend::keys::{alias_key, item_key, search_key, tag_key};
use backend::order::lex_less;
use backend::phrases::phrases;
use backend::schemas::{post_view, posts_page, AuthorEntity, Post, PostEntity, PublishForm};
use backend::text::{split_on_space, words_of};

fn strings(xs: &[&str]) -> Vec<String> {
    xs.iter().map(|x| x.to_string()).collect()
}

fn entity(title: &str, tags: &[&str]) -> PostEntity {
    PostEntity {
        title: title.to_string(),
        slug: "s".to_string(),
        author: "me".to_string(),
        search_tags: strings(tags),
        body: "body".to_string(),
        space: None,
        reply_scope: None,
        visibility_scope: None,
    }
}

#[test]
fn split_keeps_empty_pieces() {
    assert_eq!(split_on_space(" a  b "), strings(&["", "a", "", "b", ""]));
    assert_eq!(split_on_space(""), strings(&[""]));
}

#[test]
fn words_drop_empty_and_cap() {
    assert_eq!(words_of("  butter   flour cake ", 20), strings(&["butter", "flour", "cake"]));
    assert_eq!(words_of("a b c d", 2), strings(&["a", "b"]));
    assert!(words_of("", 3).is_empty());
}

#[test]
fn phrases_are_overlapping_ngrams() {
    let ps = phrases("a b c", 3, 2).unwrap();
    let got: Vec<(String, usize)> = ps.into_iter().map(|p| (p.text, p.score)).collect();
    let want: Vec<(String, usize)> = vec![
        ("a".to_string(), 11),
        ("a b".to_string(), 24),
        ("b".to_string(), 11),
        ("b c".to_string(), 24),
        ("c".to_string(), 11),
    ];
    assert_eq!(got, want);
}

#[test]
fn phrase_scores_grow_with_length() {
    let ps = phrases("a b c d", 4, 4).unwrap();
    let scores: Vec<usize> = ps.iter().take(4).map(|p| p.score).collect();
    assert_eq!(scores, vec![11, 24, 39, 56]);
}

#[test]
fn phrases_respect_word_max() {
    let ps = phrases("a b c", 1, 3).unwrap();
    assert_eq!(ps.len(), 1);
    assert_eq!(ps[0].text, "a");
    assert!(phrases("", 20, 3).unwrap().is_empty());
}

#[test]
fn derived_tags_lowercase_the_title() {
    let e = entity("Butter Cake", &["Baking", "x"]);
    assert_eq!(e.search_tags(), strings(&["butter", "cake", "Baking", "x"]));
}

#[test]
fn derived_tags_cover_every_title_word() {
    let e = entity("ÉCLAIR au Chocolat", &[]);
    let tags = e.search_tags();
    for w in "ÉCLAIR au Chocolat".split(' ') {
        assert!(tags.contains(&w.to_lowercase()));
    }
}

#[test]
fn form_becomes_entity() {
    let form = PublishForm {
        body: "text".to_string(),
        title: "My Test String!!!1!1".to_string(),
        visibility_group: Some(7),
        reply_group: None,
        tags: "a b".to_string(),
        challenges: std::array::from_fn(|_| String::new()),
    };
    let e = PostEntity::from_form(form);
    assert_eq!(e.slug, "my-test-string-1-1");
    assert_eq!(e.title, "My Test String!!!1!1");
    assert_eq!(e.author, "Some author");
    assert_eq!(e.search_tags, strings(&["a", "b"]));
    assert_eq!(e.space, None);
    assert_eq!(e.visibility_scope, None);
}

#[test]
fn post_view_from_store() {
    let author = AuthorEntity {
        author_id: "me".to_string(),
        name: "Me".to_string(),
        profile_picture: "pic".to_string(),
    };
    let p = Post::from_store(entity("T", &[]), author);
    assert_eq!(p.title, "T");
    assert_eq!(p.author.name, "Me");
    assert!(!p.can_reply);
}

#[test]
fn page_of_posts_uses_placeholder_author() {
    let pg = posts_page(vec![entity("One", &[]), entity("Two", &[])], 2, 20, 22);
    assert_eq!(pg.objects.len(), 2);
    assert_eq!(pg.objects[1].title, "Two");
    assert_eq!(pg.objects[0].author.name, "sample name");
    assert_eq!(pg.objects[0].author.profile_picture, "https://example.com");
    assert_eq!((pg.current_page, pg.per_page, pg.total_objects), (2, 20, 22));
}

#[test]
fn store_keys() {
    assert_eq!(item_key("slug"), "post.slug");
    assert_eq!(tag_key("t"), "tag.t");
    assert_eq!(alias_key("a b"), "aliases.a b");
    assert_eq!(search_key("q"), "search.q");
}

#[test]
fn order_is_by_character() {
    assert!(lex_less("1001", "1002"));
    assert!(!lex_less("1002", "1001"));
    assert!(!lex_less("a", "a"));
    assert!(lex_less("a", "ab"));
    assert!(lex_less("B", "a"));
}

#[test]
fn single_post_view_uses_placeholder_author() {
    let p = post_view(entity("Alone", &[]));
    assert_eq!(p.title, "Alone");
    assert_eq!(p.author.name, "sample name");
    assert_eq!(p.author.profile_picture, "https://example.com");
    assert!(!p.can_reply);
}
