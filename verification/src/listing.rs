//! Reading the answer of the wiki to the question which pages belong to a
//! category.

use crate::error::WikiError;
use crate::json::{items, json_views, member, parse_json, parsed_json, text, Json, JsonView};
use crate::page::WIKI_BASE_URL;
use crate::text::{chars_of, matches_at, starts_with};
use vstd::prelude::*;

verus! {

/// The address at which the wiki lists the members of the category with
/// the key `key`: up to 50 of them, as JSON.
pub open spec fn listing_address(key: Seq<char>) -> Seq<char> {
    WIKI_BASE_URL@ + "/w/api.php?action=query&list=categorymembers&cmtitle=Category:"@ + key
        + "&format=json&cmlimit=50"@
}

/// The address at which the wiki lists the members of a category.
pub fn category_listing_url(key: &str) -> (url: String)
    ensures
        url@ == listing_address(key@),
{
    let mut url = WIKI_BASE_URL.to_owned();
    url.append("/w/api.php?action=query&list=categorymembers&cmtitle=Category:");
    url.append(key);
    url.append("&format=json&cmlimit=50");
    url
}

/// Whether a page title names a page with content: one outside the
/// namespaces of categories, files and templates.
pub open spec fn is_content_title(title: Seq<char>) -> bool {
    &&& !starts_with(title, "Category:"@)
    &&& !starts_with(title, "File:"@)
    &&& !starts_with(title, "Template:"@)
}

/// The titles among `titles` that name pages with content, in order.
pub open spec fn content_titles(titles: Seq<Seq<char>>) -> Seq<Seq<char>> {
    titles.filter(|title: Seq<char>| is_content_title(title))
}

/// How the content titles grow when one more title is considered.
proof fn lemma_content_titles_step(titles: Seq<Seq<char>>, n: int)
    requires
        0 <= n < titles.len(),
    ensures
        content_titles(titles.take(n + 1)) == if is_content_title(titles[n]) {
            content_titles(titles.take(n)).push(titles[n])
        } else {
            content_titles(titles.take(n))
        },
{
    reveal(Seq::filter);
    assert(titles.take(n + 1).drop_last() =~= titles.take(n));
}

/// Every title that is kept names a page with content.
pub proof fn lemma_content_titles_are_content(titles: Seq<Seq<char>>, i: int)
    requires
        0 <= i < content_titles(titles).len(),
    ensures
        is_content_title(content_titles(titles)[i]),
        titles.contains(content_titles(titles)[i]),
    decreases titles.len(),
{
    reveal(Seq::filter);
    let front = titles.drop_last();
    if i < content_titles(front).len() {
        lemma_content_titles_are_content(front, i);
        let at = choose|at: int| 0 <= at < front.len() && front[at] == content_titles(front)[i];
        assert(titles[at] == content_titles(titles)[i]);
    } else {
        assert(titles[titles.len() - 1] == content_titles(titles)[i]);
    }
}

/// Whether `title` names a page with content.
pub fn names_content(title: &str) -> (content: bool)
    ensures
        content == is_content_title(title@),
{
    let chars = chars_of(title);
    !matches_at(&chars, &chars_of("Category:"), 0) && !matches_at(&chars, &chars_of("File:"), 0)
        && !matches_at(&chars, &chars_of("Template:"), 0)
}

/// Keeps the titles of pages with content.
pub fn keep_content_titles(titles: &Vec<String>) -> (out: Vec<String>)
    ensures
        out.deep_view() == content_titles(titles.deep_view()),
{
    let mut out: Vec<String> = Vec::new();
    let mut i: usize = 0;
    proof {
        reveal(Seq::filter);
        assert(titles.deep_view().take(0) =~= Seq::<Seq<char>>::empty());
        assert(out.deep_view() =~= Seq::<Seq<char>>::empty());
    }
    while i < titles.len()
        invariant
            i <= titles.len(),
            out.deep_view() == content_titles(titles.deep_view().take(i as int)),
        decreases titles.len() - i,
    {
        let ghost before = out.deep_view();
        proof {
            lemma_content_titles_step(titles.deep_view(), i as int);
        }
        if names_content(titles[i].as_str()) {
            out.push(titles[i].clone());
            proof {
                assert(out.deep_view() =~= before.push(titles@[i as int]@));
            }
        }
        i += 1;
    }
    proof {
        assert(titles.deep_view().take(titles.len() as int) =~= titles.deep_view());
    }
    out
}

/// The title that one member of the list carries: the text of its
/// `title`, if it has one.
pub open spec fn title_of(entry: JsonView) -> Option<Seq<char>> {
    match member(entry, "title"@) {
        Some(title) => text(title),
        None => None,
    }
}

/// The titles of the entries that carry one, in order.
pub open spec fn titles_of(entries: Seq<JsonView>) -> Seq<Seq<char>> {
    entries.filter_map(|entry: JsonView| title_of(entry))
}

/// The titles that an answer lists: those of the entries of the array
/// `categorymembers` in the object `query`. An answer without that array
/// lists nothing.
pub open spec fn listed_titles(answer: JsonView) -> Seq<Seq<char>> {
    match member(answer, "query"@) {
        Some(query) => match member(query, "categorymembers"@) {
            Some(list) => match items(list) {
                Some(entries) => titles_of(entries),
                None => Seq::empty(),
            },
            None => Seq::empty(),
        },
        None => Seq::empty(),
    }
}

/// How the titles grow when one more entry is considered.
proof fn lemma_titles_of_step(entries: Seq<JsonView>, n: int)
    requires
        0 <= n < entries.len(),
    ensures
        titles_of(entries.take(n + 1)) == match title_of(entries[n]) {
            Some(title) => titles_of(entries.take(n)).push(title),
            None => titles_of(entries.take(n)),
        },
{
    assert(entries.take(n + 1).drop_last() =~= entries.take(n));
    match title_of(entries[n]) {
        Some(title) => {
            assert(titles_of(entries.take(n)) + seq![title] =~= titles_of(entries.take(n)).push(
                title,
            ));
        },
        None => {},
    }
}

/// The titles that the answer lists.
pub fn collect_titles(answer: &Json) -> (out: Vec<String>)
    ensures
        out.deep_view() == listed_titles(answer@),
{
    let mut titles: Vec<String> = Vec::new();
    proof {
        assert(titles.deep_view() =~= Seq::<Seq<char>>::empty());
    }
    let entries = match answer.get("query") {
        Some(query) => match query.get("categorymembers") {
            Some(list) => list.as_array(),
            None => None,
        },
        None => None,
    };
    if let Some(entries) = entries {
        let ghost views = json_views(entries@);
        let mut i: usize = 0;
        proof {
            assert(views.take(0) =~= Seq::<JsonView>::empty());
        }
        while i < entries.len()
            invariant
                i <= entries.len(),
                views == json_views(entries@),
                titles.deep_view() == titles_of(views.take(i as int)),
            decreases entries.len() - i,
        {
            let ghost before = titles.deep_view();
            proof {
                lemma_titles_of_step(views, i as int);
                assert(views[i as int] == entries@[i as int]@);
            }
            if let Some(title) = entries[i].get("title") {
                if let Some(text) = title.as_str() {
                    titles.push(text.to_owned());
                    proof {
                        assert(titles.deep_view() =~= before.push(text@));
                    }
                }
            }
            i += 1;
        }
        proof {
            assert(views.take(entries.len() as int) =~= views);
        }
    }
    titles
}

/// The members that the answer `text` of the wiki names: the titles it
/// lists that are pages with content. `None` where the text is no JSON.
pub open spec fn category_members(text: Seq<char>) -> Option<Seq<Seq<char>>> {
    match parsed_json(text) {
        Some(answer) => Some(content_titles(listed_titles(answer))),
        None => None,
    }
}

/// Reads the wiki's answer `text` and gives the titles of the category's
/// members that are pages with content. An answer that is no JSON is an
/// error; one without a list of members has no members.
pub fn parse_category_members(text: &str) -> (out: Result<Vec<String>, WikiError>)
    ensures
        match out {
            Ok(names) => category_members(text@) == Some(names.deep_view()),
            Err(error) => category_members(text@) is None && error is Parse,
        },
{
    match parse_json(text) {
        Ok(answer) => {
            let titles = collect_titles(&answer);
            Ok(keep_content_titles(&titles))
        },
        Err(cause) => Err(WikiError::Parse { cause }),
    }
}

} // verus!
