//! Reading a mod's wiki page: the parts of the page that matter, as plain
//! text, and the record that is drawn from them.

use crate::catalog::{copy_optional, ModInfo, ModInfoView};
use crate::text::{
    byte_len, byte_length, chars_of, clean_text, cleaned, contains, contains_chars, is_blank,
    is_blank_text, join_strings, joined, lemma_trimmed_is_no_longer, lowercase, lowercase_of,
    matches_at, starts_with, trim, trimmed, truncate, truncated,
};
use vstd::prelude::*;

verus! {

/// The text pieces of the elements of the page `html` that the CSS selector
/// `selector` matches, one list of pieces for each element, in the order in
/// which `Html::select` yields them; `None` where `selector` is no
/// selector.
pub uninterp spec fn selected_text(html: Seq<char>, selector: Seq<char>) -> Option<
    Seq<Seq<Seq<char>>>,
>;

/// For each element of the page `html` that `outer` matches, the text
/// pieces of each element below it that `inner` matches; `None` where one
/// of the two is no selector.
pub uninterp spec fn selected_nested_text(
    html: Seq<char>,
    outer: Seq<char>,
    inner: Seq<char>,
) -> Option<Seq<Seq<Seq<Seq<char>>>>>;

/// For each element of the page `html` that `selector` matches, the value
/// of its attribute `name`, if it has one; `None` where `selector` is no
/// selector.
pub uninterp spec fn selected_attribute(
    html: Seq<char>,
    selector: Seq<char>,
    name: Seq<char>,
) -> Option<Seq<Option<Seq<char>>>>;

/// Parses `html` with `scraper::Html::parse_document`, parses `selector`
/// with `scraper::Selector::parse`, and walks `Html::select`, taking from
/// each matched element the strings that `ElementRef::text` yields. What
/// comes back depends on the two texts alone.
#[verifier::external_body]
fn select_text(html: &str, selector: &str) -> (out: Option<Vec<Vec<String>>>)
    ensures
        out.deep_view() == selected_text(html@, selector@),
{
    let document = scraper::Html::parse_document(html);
    let selector = scraper::Selector::parse(selector).ok()?;
    Some(
        document.select(&selector).map(
            |element| element.text().map(String::from).collect(),
        ).collect(),
    )
}

/// As `select_text`, but for each element that `outer` matches it walks
/// `ElementRef::select` with `inner` and takes the text pieces of each
/// element found below.
#[verifier::external_body]
fn select_nested_text(html: &str, outer: &str, inner: &str) -> (out: Option<
    Vec<Vec<Vec<String>>>,
>)
    ensures
        out.deep_view() == selected_nested_text(html@, outer@, inner@),
{
    let document = scraper::Html::parse_document(html);
    let outer = scraper::Selector::parse(outer).ok()?;
    let inner = scraper::Selector::parse(inner).ok()?;
    Some(
        document.select(&outer).map(
            |row| row.select(&inner).map(|cell| cell.text().map(String::from).collect()).collect(),
        ).collect(),
    )
}

/// As `select_text`, but takes from each matched element what
/// `Element::attr` gives for the attribute `name`.
#[verifier::external_body]
fn select_attribute(html: &str, selector: &str, name: &str) -> (out: Option<Vec<Option<String>>>)
    ensures
        out.deep_view() == selected_attribute(html@, selector@, name@),
{
    let document = scraper::Html::parse_document(html);
    let selector = scraper::Selector::parse(selector).ok()?;
    Some(
        document.select(&selector).map(
            |element| element.value().attr(name).map(String::from),
        ).collect(),
    )
}

/// The kinds of text that a description is drawn from, each with its own
/// test of what is worth keeping.
#[derive(Clone, Copy, Debug, PartialEq, Eq, Structural)]
pub enum Rule {
    /// The value of a description field in the info panel.
    PanelValue,
    /// A paragraph of the page's body.
    Paragraph,
    /// An item of a bullet list that speaks of features.
    Feature,
    /// Any other block of content, taken when nothing else was found.
    Block,
}

/// The text is a link or names the code hosting site.
pub open spec fn is_linkish(text: Seq<char>) -> bool {
    starts_with(text, "http"@) || contains(text, "github.com"@)
}

/// The text is a link or names one of the sites where mods are hosted.
pub open spec fn names_host(text: Seq<char>) -> bool {
    ||| is_linkish(text)
    ||| contains(text, "gamebanana.com"@)
    ||| contains(text, "drive.google.com"@)
}

/// The lowercase text holds a phrase that wikis use for notices and section
/// headers around the content.
pub open spec fn is_boilerplate(lower: Seq<char>) -> bool {
    ||| contains(lower, "disambiguation"@)
    ||| contains(lower, "redirect"@)
    ||| contains(lower, "this article is a stub"@)
    ||| contains(lower, "bibliography"@)
    ||| contains(lower, "references"@)
    ||| contains(lower, "external links"@)
    ||| contains(lower, "see also"@)
    ||| contains(lower, "categories"@)
    ||| contains(lower, "navigation"@)
}

/// The lowercase text holds one of the phrases that mark a page's frame.
pub open spec fn is_frame(lower: Seq<char>) -> bool {
    ||| contains(lower, "navigation"@)
    ||| contains(lower, "categories"@)
    ||| contains(lower, "this article is a stub"@)
}

/// The text holds a section number of a table of contents.
pub open spec fn has_section_number(text: Seq<char>) -> bool {
    contains(text, "2.1"@) || contains(text, "2.2"@) || contains(text, "2.3"@)
}

/// The lowercase text holds a word that announces a feature.
pub open spec fn names_feature(lower: Seq<char>) -> bool {
    ||| contains(lower, "adds"@)
    ||| contains(lower, "features"@)
    ||| contains(lower, "includes"@)
    ||| contains(lower, "joker"@)
}

/// Whether the cleaned text `text` is kept under `rule`.
pub open spec fn qualifies(rule: Rule, text: Seq<char>) -> bool {
    match rule {
        Rule::PanelValue => byte_length(text) > 10 && !is_linkish(text),
        Rule::Paragraph => {
            &&& byte_length(text) > 20
            &&& !is_blank_text(text)
            &&& !names_host(text)
            &&& !is_boilerplate(lowercase(text))
            &&& !has_section_number(text)
        },
        Rule::Feature => {
            &&& byte_length(text) > 15
            &&& !is_linkish(text)
            &&& names_feature(lowercase(text))
        },
        Rule::Block => {
            &&& byte_length(text) > 30
            &&& !names_host(text)
            &&& !is_frame(lowercase(text))
        },
    }
}

/// Whether `phrase` stands somewhere in `hay`.
fn has(hay: &Vec<char>, phrase: &str) -> (found: bool)
    ensures
        found == contains(hay@, phrase@),
{
    contains_chars(hay, &chars_of(phrase))
}

/// Whether the cleaned text `text` is kept under `rule`.
pub fn is_kept(rule: Rule, text: &str) -> (kept: bool)
    ensures
        kept == qualifies(rule, text@),
{
    let chars = chars_of(text);
    let lower = chars_of(lowercase_of(text).as_str());
    let length = byte_len(text);
    let linkish = matches_at(&chars, &chars_of("http"), 0) || has(&chars, "github.com");
    match rule {
        Rule::PanelValue => length > 10 && !linkish,
        Rule::Paragraph => {
            let host = linkish || has(&chars, "gamebanana.com") || has(&chars, "drive.google.com");
            let boilerplate = has(&lower, "disambiguation") || has(&lower, "redirect") || has(
                &lower,
                "this article is a stub",
            ) || has(&lower, "bibliography") || has(&lower, "references") || has(
                &lower,
                "external links",
            ) || has(&lower, "see also") || has(&lower, "categories") || has(&lower, "navigation");
            let numbered = has(&chars, "2.1") || has(&chars, "2.2") || has(&chars, "2.3");
            length > 20 && !is_blank(text) && !host && !boilerplate && !numbered
        },
        Rule::Feature => {
            let feature = has(&lower, "adds") || has(&lower, "features") || has(&lower, "includes")
                || has(&lower, "joker");
            length > 15 && !linkish && feature
        },
        Rule::Block => {
            let host = linkish || has(&chars, "gamebanana.com") || has(&chars, "drive.google.com");
            let frame = has(&lower, "navigation") || has(&lower, "categories") || has(
                &lower,
                "this article is a stub",
            );
            length > 30 && !host && !frame
        },
    }
}

/// The cleaned text of an element: its text pieces joined by single
/// spaces, then cleaned.
pub open spec fn element_text(pieces: Seq<Seq<char>>) -> Seq<char> {
    cleaned(joined(pieces, " "@))
}

/// The cleaned texts of the elements, in order.
pub open spec fn element_texts(elements: Seq<Seq<Seq<char>>>) -> Seq<Seq<char>> {
    elements.map_values(|pieces: Seq<Seq<char>>| element_text(pieces))
}

/// The texts among `texts` that are kept under `rule`, in order.
pub open spec fn qualifying(texts: Seq<Seq<char>>, rule: Rule) -> Seq<Seq<char>> {
    texts.filter(|text: Seq<char>| qualifies(rule, text))
}

/// The first `limit` members of `items`, or all of them where there are
/// fewer.
pub open spec fn first_of<T>(items: Seq<T>, limit: nat) -> Seq<T> {
    if limit <= items.len() {
        items.take(limit as int)
    } else {
        items
    }
}

/// How the kept texts grow when one more text is considered.
proof fn lemma_qualifying_step(texts: Seq<Seq<char>>, rule: Rule, n: int)
    requires
        0 <= n < texts.len(),
    ensures
        qualifying(texts.take(n + 1), rule) == if qualifies(rule, texts[n]) {
            qualifying(texts.take(n), rule).push(texts[n])
        } else {
            qualifying(texts.take(n), rule)
        },
{
    reveal(Seq::filter);
    assert(texts.take(n + 1).drop_last() =~= texts.take(n));
}

/// The texts kept from the first `n` texts come first among the texts kept
/// from all of them.
proof fn lemma_qualifying_prefix(texts: Seq<Seq<char>>, rule: Rule, n: int)
    requires
        0 <= n <= texts.len(),
    ensures
        qualifying(texts.take(n), rule).len() <= qualifying(texts, rule).len(),
        qualifying(texts, rule).take(qualifying(texts.take(n), rule).len() as int) == qualifying(
            texts.take(n),
            rule,
        ),
{
    let keep = |text: Seq<char>| qualifies(rule, text);
    Seq::filter_distributes_over_add(texts.take(n), texts.skip(n), keep);
    assert(texts.take(n) + texts.skip(n) =~= texts);
    let head = texts.take(n).filter(keep);
    let tail = texts.skip(n).filter(keep);
    assert((head + tail).take(head.len() as int) =~= head);
}

/// The cleaned texts of up to `limit` elements that are kept under `rule`,
/// taken from the front.
pub fn collect_qualifying(elements: &Vec<Vec<String>>, rule: Rule, limit: usize) -> (out: Vec<
    String,
>)
    ensures
        out.deep_view() == first_of(
            qualifying(element_texts(elements.deep_view()), rule),
            limit as nat,
        ),
{
    let ghost texts = element_texts(elements.deep_view());
    let mut out: Vec<String> = Vec::new();
    let mut i: usize = 0;
    proof {
        reveal(Seq::filter);
        assert(texts.take(0) =~= Seq::<Seq<char>>::empty());
        assert(out.deep_view() =~= Seq::<Seq<char>>::empty());
    }
    while i < elements.len() && out.len() < limit
        invariant
            i <= elements.len(),
            texts == element_texts(elements.deep_view()),
            out.len() <= limit,
            out.deep_view() == qualifying(texts.take(i as int), rule),
        decreases elements.len() - i,
    {
        let ghost before = out.deep_view();
        let text = clean_text(join_strings(&elements[i], " ").as_str());
        proof {
            assert(texts[i as int] == text@);
            lemma_qualifying_step(texts, rule, i as int);
        }
        if is_kept(rule, text.as_str()) {
            out.push(text);
            proof {
                assert(out.deep_view() =~= before.push(texts[i as int]));
            }
        }
        i += 1;
    }
    proof {
        lemma_qualifying_prefix(texts, rule, i as int);
        assert(texts.take(texts.len() as int) =~= texts);
    }
    out
}

/// What one row of the info panel gives to the description: where the row
/// has two cells or more and the first names a description, the cleaned
/// text of the second, if it is kept as a panel value.
pub open spec fn panel_value(cells: Seq<Seq<Seq<char>>>) -> Option<Seq<char>> {
    if cells.len() >= 2 && contains(lowercase(joined(cells[0], Seq::empty())), "description"@)
        && qualifies(Rule::PanelValue, element_text(cells[1])) {
        Some(element_text(cells[1]))
    } else {
        None
    }
}

/// What the rows of the info panel give to the description, in order.
pub open spec fn panel_values(rows: Seq<Seq<Seq<Seq<char>>>>) -> Seq<Seq<char>> {
    rows.filter_map(|cells: Seq<Seq<Seq<char>>>| panel_value(cells))
}

/// How the panel values grow when one more row is considered.
proof fn lemma_panel_values_step(rows: Seq<Seq<Seq<Seq<char>>>>, n: int)
    requires
        0 <= n < rows.len(),
    ensures
        panel_values(rows.take(n + 1)) == match panel_value(rows[n]) {
            Some(text) => panel_values(rows.take(n)).push(text),
            None => panel_values(rows.take(n)),
        },
{
    assert(rows.take(n + 1).drop_last() =~= rows.take(n));
    match panel_value(rows[n]) {
        Some(text) => {
            assert(panel_values(rows.take(n)) + seq![text] =~= panel_values(rows.take(n)).push(
                text,
            ));
        },
        None => {},
    }
}

/// The description values of the info panel's rows.
pub fn collect_panel_values(rows: &Vec<Vec<Vec<String>>>) -> (out: Vec<String>)
    ensures
        out.deep_view() == panel_values(rows.deep_view()),
{
    let mut out: Vec<String> = Vec::new();
    let mut i: usize = 0;
    proof {
        assert(rows.deep_view().take(0) =~= Seq::<Seq<Seq<Seq<char>>>>::empty());
        assert(out.deep_view() =~= Seq::<Seq<char>>::empty());
    }
    while i < rows.len()
        invariant
            i <= rows.len(),
            out.deep_view() == panel_values(rows.deep_view().take(i as int)),
        decreases rows.len() - i,
    {
        let ghost before = out.deep_view();
        proof {
            lemma_panel_values_step(rows.deep_view(), i as int);
        }
        let cells = &rows[i];
        if cells.len() >= 2 {
            proof {
                reveal_strlit("");
                assert(""@ =~= Seq::<char>::empty());
            }
            let header = lowercase_of(join_strings(&cells[0], "").as_str());
            if has(&chars_of(header.as_str()), "description") {
                let value = clean_text(join_strings(&cells[1], " ").as_str());
                if is_kept(Rule::PanelValue, value.as_str()) {
                    out.push(value);
                    proof {
                        assert(out.deep_view() =~= before.push(
                            element_text(rows.deep_view()[i as int][1]),
                        ));
                    }
                }
            }
        }
        i += 1;
    }
    proof {
        assert(rows.deep_view().take(rows.len() as int) =~= rows.deep_view());
    }
    out
}

/// The parts of a mod's page that a record is drawn from. Each element is
/// held as the list of its text pieces.
#[derive(Debug)]
pub struct PageContent {
    /// The page's first-level headings.
    pub headings: Vec<Vec<String>>,
    /// The targets of the links that lead to the code hosting site.
    pub repository_links: Vec<Option<String>>,
    /// The rows of the info panel.
    pub panel_rows: Vec<Vec<String>>,
    /// The cells of each row of the info panel.
    pub panel_cells: Vec<Vec<Vec<String>>>,
    /// The paragraphs of the page's body.
    pub paragraphs: Vec<Vec<String>>,
    /// The items of the body's bullet lists.
    pub list_items: Vec<Vec<String>>,
    /// The blocks and list items of the body.
    pub blocks: Vec<Vec<String>>,
}

/// The mathematical value of a [`PageContent`].
pub struct PageView {
    pub headings: Seq<Seq<Seq<char>>>,
    pub repository_links: Seq<Option<Seq<char>>>,
    pub panel_rows: Seq<Seq<Seq<char>>>,
    pub panel_cells: Seq<Seq<Seq<Seq<char>>>>,
    pub paragraphs: Seq<Seq<Seq<char>>>,
    pub list_items: Seq<Seq<Seq<char>>>,
    pub blocks: Seq<Seq<Seq<char>>>,
}

impl View for PageContent {
    type V = PageView;

    open spec fn view(&self) -> PageView {
        PageView {
            headings: self.headings.deep_view(),
            repository_links: self.repository_links.deep_view(),
            panel_rows: self.panel_rows.deep_view(),
            panel_cells: self.panel_cells.deep_view(),
            paragraphs: self.paragraphs.deep_view(),
            list_items: self.list_items.deep_view(),
            blocks: self.blocks.deep_view(),
        }
    }
}

/// How many paragraphs a description takes at most, given the number of
/// values that the info panel gave: together they make three parts, and one
/// paragraph is taken in any case.
pub open spec fn paragraph_room(panel_count: nat) -> nat {
    if panel_count >= 3 {
        1
    } else {
        (3 - panel_count) as nat
    }
}

/// The parts of a page's description: the info panel's values, then the
/// first kept paragraphs, then up to two kept list items that speak of
/// features.
pub open spec fn description_parts(page: PageView) -> Seq<Seq<char>> {
    let panel = panel_values(page.panel_cells);
    panel + first_of(
        qualifying(element_texts(page.paragraphs), Rule::Paragraph),
        paragraph_room(panel.len()),
    ) + first_of(qualifying(element_texts(page.list_items), Rule::Feature), 2)
}

/// The description of a page: its parts joined by spaces and shortened to
/// 500 characters, where that makes more than ten bytes; else the first
/// kept block, shortened likewise; else a fixed sentence.
pub open spec fn description_of(page: PageView) -> Seq<char> {
    let combined = joined(description_parts(page), " "@);
    let blocks = qualifying(element_texts(page.blocks), Rule::Block);
    if byte_length(combined) > 10 {
        truncated(combined, 500)
    } else if blocks.len() > 0 {
        truncated(blocks[0], 500)
    } else {
        "No description available"@
    }
}

/// The length to which a description is cut, in characters.
pub const DESCRIPTION_LIMIT: usize = 500;

/// A description never has more than 500 characters.
pub proof fn lemma_description_is_bounded(page: PageView)
    ensures
        description_of(page).len() <= DESCRIPTION_LIMIT,
        trimmed(description_of(page)).len() <= DESCRIPTION_LIMIT,
{
    reveal_strlit("No description available");
    lemma_trimmed_is_no_longer(description_of(page));
}

/// Moves the strings of `more` to the end of `parts`.
fn append_strings(parts: &mut Vec<String>, more: Vec<String>)
    ensures
        final(parts).deep_view() == old(parts).deep_view() + more.deep_view(),
{
    let ghost moved = more.deep_view();
    let mut rest = more;
    parts.append(&mut rest);
    proof {
        assert(final(parts).deep_view() =~= old(parts).deep_view() + moved);
    }
}

/// Draws the description from a page.
pub fn extract_description(page: &PageContent) -> (out: String)
    ensures
        out@ == description_of(page@),
        out@.len() <= DESCRIPTION_LIMIT,
{
    proof {
        lemma_description_is_bounded(page@);
    }
    let mut parts = collect_panel_values(&page.panel_cells);
    let room: usize = if parts.len() >= 3 {
        1
    } else {
        3 - parts.len()
    };
    let paragraphs = collect_qualifying(&page.paragraphs, Rule::Paragraph, room);
    let features = collect_qualifying(&page.list_items, Rule::Feature, 2);
    append_strings(&mut parts, paragraphs);
    append_strings(&mut parts, features);
    let combined = join_strings(&parts, " ");
    if byte_len(combined.as_str()) > 10 {
        return truncate(combined.as_str(), DESCRIPTION_LIMIT);
    }
    let blocks = collect_qualifying(&page.blocks, Rule::Block, 1);
    proof {
        let kept = qualifying(element_texts(page@.blocks), Rule::Block);
        assert(blocks.deep_view().len() == blocks.len());
        if kept.len() > 0 {
            assert(blocks.deep_view()[0] == kept[0]);
        }
    }
    if blocks.len() > 0 {
        truncate(blocks[0].as_str(), DESCRIPTION_LIMIT)
    } else {
        "No description available".to_owned()
    }
}

/// Whether a row of the info panel, read as one lowercase text, holds
/// `word`.
pub open spec fn row_mentions(row: Seq<Seq<char>>, word: Seq<char>) -> bool {
    contains(lowercase(joined(row, Seq::empty())), word)
}

/// Whether some row of the info panel holds `word`.
pub open spec fn panel_mentions(rows: Seq<Seq<Seq<char>>>, word: Seq<char>) -> bool {
    exists|i: int| 0 <= i < rows.len() && row_mentions(#[trigger] rows[i], word)
}

/// Whether some row of the info panel holds `word`.
fn panel_has(rows: &Vec<Vec<String>>, word: &str) -> (found: bool)
    ensures
        found == panel_mentions(rows.deep_view(), word@),
{
    let mut i: usize = 0;
    while i < rows.len()
        invariant
            i <= rows.len(),
            forall|j: int| 0 <= j < i ==> !row_mentions(#[trigger] rows.deep_view()[j], word@),
        decreases rows.len() - i,
    {
        proof {
            reveal_strlit("");
            assert(""@ =~= Seq::<char>::empty());
        }
        let text = lowercase_of(join_strings(&rows[i], "").as_str());
        if has(&chars_of(text.as_str()), word) {
            assert(row_mentions(rows.deep_view()[i as int], word@));
            return true;
        }
        i += 1;
    }
    false
}

/// The record that a page gives for a mod: the text of the first heading
/// as its name, or `fallback_name` where the page has no heading or one
/// without text; the description
/// without white space at its ends; the author and the version marked as
/// unknown where the info panel speaks of them; the first link to the code
/// hosting site; `url` as the page's address. The category is set later.
pub open spec fn item_of(page: PageView, fallback_name: Seq<char>, url: Seq<char>) -> ModInfoView {
    ModInfoView {
        name: if page.headings.len() > 0 && joined(page.headings[0], Seq::empty()).len() > 0 {
            joined(page.headings[0], Seq::empty())
        } else {
            fallback_name
        },
        description: trimmed(description_of(page)),
        author: if panel_mentions(page.panel_rows, "author"@) {
            Some("Unknown"@)
        } else {
            None
        },
        version: if panel_mentions(page.panel_rows, "version"@) {
            Some("Unknown"@)
        } else {
            None
        },
        github_url: if page.repository_links.len() > 0 {
            page.repository_links[0]
        } else {
            None
        },
        wiki_url: url,
        category: "Unknown"@,
        dependencies: Seq::empty(),
    }
}

/// Draws a mod's record from its page.
pub fn parse_item_detail(page: &PageContent, fallback_name: &str, url: &str) -> (item: ModInfo)
    ensures
        item@ == item_of(page@, fallback_name@, url@),
        item@.description.len() <= DESCRIPTION_LIMIT,
        fallback_name@.len() > 0 ==> item@.name.len() > 0,
{
    proof {
        lemma_description_is_bounded(page@);
    }
    let heading = if page.headings.len() > 0 {
        proof {
            reveal_strlit("");
            assert(""@ =~= Seq::<char>::empty());
        }
        join_strings(&page.headings[0], "")
    } else {
        String::new()
    };
    let name = if heading.as_str().is_empty() {
        fallback_name.to_owned()
    } else {
        heading
    };
    let description = trim(extract_description(page).as_str());
    let author = if panel_has(&page.panel_rows, "author") {
        Some("Unknown".to_owned())
    } else {
        None
    };
    let version = if panel_has(&page.panel_rows, "version") {
        Some("Unknown".to_owned())
    } else {
        None
    };
    let github_url = if page.repository_links.len() > 0 {
        copy_optional(&page.repository_links[0])
    } else {
        None
    };
    let item = ModInfo {
        name,
        description,
        author,
        version,
        github_url,
        wiki_url: url.to_owned(),
        category: "Unknown".to_owned(),
        dependencies: Vec::new(),
    };
    proof {
        assert(item.dependencies.deep_view() =~= Seq::<Seq<char>>::empty());
    }
    item
}

/// What a selection found, or nothing where the selector was refused.
pub open spec fn found<T>(selected: Option<Seq<T>>) -> Seq<T> {
    match selected {
        Some(items) => items,
        None => Seq::empty(),
    }
}

/// The parts of the page `html` that a record is drawn from, each with the
/// selector that finds it.
pub open spec fn page_of(html: Seq<char>) -> PageView {
    PageView {
        headings: found(selected_text(html, "h1.firstHeading"@)),
        repository_links: found(selected_attribute(html, "a[href*='github.com']"@, "href"@)),
        panel_rows: found(selected_text(html, ".infobox tr"@)),
        panel_cells: found(selected_nested_text(html, ".infobox tr"@, "td"@)),
        paragraphs: found(selected_text(html, "div.mw-parser-output > p"@)),
        list_items: found(selected_text(html, "div.mw-parser-output ul li"@)),
        blocks: found(
            selected_text(html, "div.mw-parser-output div, div.mw-parser-output li"@),
        ),
    }
}

/// The text pieces of the elements of `html` that `selector` matches.
fn texts_at(html: &str, selector: &str) -> (out: Vec<Vec<String>>)
    ensures
        out.deep_view() == found(selected_text(html@, selector@)),
{
    match select_text(html, selector) {
        Some(items) => items,
        None => {
            let items: Vec<Vec<String>> = Vec::new();
            proof {
                assert(items.deep_view() =~= Seq::<Seq<Seq<char>>>::empty());
            }
            items
        },
    }
}

/// Reads from the page `html` the parts that a record is drawn from.
pub fn scan_page(html: &str) -> (page: PageContent)
    ensures
        page@ == page_of(html@),
{
    let repository_links = match select_attribute(html, "a[href*='github.com']", "href") {
        Some(items) => items,
        None => {
            let items: Vec<Option<String>> = Vec::new();
            proof {
                assert(items.deep_view() =~= Seq::<Option<Seq<char>>>::empty());
            }
            items
        },
    };
    let panel_cells = match select_nested_text(html, ".infobox tr", "td") {
        Some(items) => items,
        None => {
            let items: Vec<Vec<Vec<String>>> = Vec::new();
            proof {
                assert(items.deep_view() =~= Seq::<Seq<Seq<Seq<char>>>>::empty());
            }
            items
        },
    };
    PageContent {
        headings: texts_at(html, "h1.firstHeading"),
        repository_links,
        panel_rows: texts_at(html, ".infobox tr"),
        panel_cells,
        paragraphs: texts_at(html, "div.mw-parser-output > p"),
        list_items: texts_at(html, "div.mw-parser-output ul li"),
        blocks: texts_at(html, "div.mw-parser-output div, div.mw-parser-output li"),
    }
}

/// The address of the wiki.
pub const WIKI_BASE_URL: &'static str = "https://balatromods.miraheze.org";

/// The address of the page of the mod `name`.
pub open spec fn page_address(name: Seq<char>) -> Seq<char> {
    WIKI_BASE_URL@ + "/wiki/"@ + name
}

/// The address of the page of the mod `mod_name`.
pub fn mod_page_url(mod_name: &str) -> (url: String)
    ensures
        url@ == page_address(mod_name@),
{
    let mut url = WIKI_BASE_URL.to_owned();
    url.append("/wiki/");
    url.append(mod_name);
    url
}

/// Draws the record of the mod `mod_name` from the text of its page.
pub fn parse_mod_page(html: &str, mod_name: &str) -> (item: ModInfo)
    ensures
        item@ == item_of(page_of(html@), mod_name@, page_address(mod_name@)),
        item@.description.len() <= DESCRIPTION_LIMIT,
        mod_name@.len() > 0 ==> item@.name.len() > 0,
{
    let page = scan_page(html);
    let url = mod_page_url(mod_name);
    parse_item_detail(&page, mod_name, url.as_str())
}

} // verus!
