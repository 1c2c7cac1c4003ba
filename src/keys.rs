//! Where each record lives in the key-value store.
use vstd::prelude::*;
use vstd::string::*;

verus! {

/// The key of a stored post.
pub fn item_key(slug: &str) -> (k: String)
    ensures
        k@ == "post."@ + slug@,
{
    String::from_str("post.").concat(slug)
}

/// The key of the references posted under a tag.
pub fn tag_key(tag: &str) -> (k: String)
    ensures
        k@ == "tag."@ + tag@,
{
    String::from_str("tag.").concat(tag)
}

/// The key of the tags a phrase stands for.
pub fn alias_key(phrase: &str) -> (k: String)
    ensures
        k@ == "aliases."@ + phrase@,
{
    String::from_str("aliases.").concat(phrase)
}

/// The key under which the results of a query are cached.
pub fn search_key(query: &str) -> (k: String)
    ensures
        k@ == "search."@ + query@,
{
    String::from_str("search.").concat(query)
}

} // verus!
