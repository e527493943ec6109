//! Values computed for the page templates.
use vstd::prelude::*;
use crate::text::{push_str, split_words, string_views, words};

verus! {

/// The tags of a tag string: its whitespace-separated words, as written.
pub fn split_tags(tag_string: &str) -> (res: Vec<String>)
    ensures
        string_views(res@) == words(tag_string@),
{
    split_words(tag_string)
}

/// The link to the search for `tag`: `/?q=` followed by the tag as it is.
pub fn tag_url(tag: &str) -> (res: String)
    ensures
        res@ == "/?q="@ + tag@,
{
    let mut url = "/?q=".to_owned();
    push_str(&mut url, tag);
    url
}

} // verus!
