use balatro_wiki::page::{
    extract_description, is_kept, mod_page_url, parse_item_detail, parse_mod_page, scan_page,
    PageContent, Rule,
};

fn pieces(texts: &[&str]) -> Vec<String> {
    texts.iter().map(|t| t.to_string()).collect()
}

fn empty_page() -> PageContent {
    PageContent {
        headings: Vec::new(),
        repository_links: Vec::new(),
        panel_rows: Vec::new(),
        panel_cells: Vec::new(),
        paragraphs: Vec::new(),
        list_items: Vec::new(),
        blocks: Vec::new(),
    }
}

const PAGE: &str = "<html><body><h1 class=\"firstHeading\">Foo <i>Mod</i></h1>\
<div class=\"mw-parser-output\">\
<table class=\"infobox\"><tr><td>Author</td><td>Somebody</td></tr>\
<tr><td>Description</td><td>Adds forty new jokers to the game</td></tr></table>\
<p>This article is a stub. You can help by expanding it.</p>\
<p>Foo Mod is a large content mod with many new cards and decks.</p>\
<p>short</p>\
<ul><li>Adds a new deck with special rules</li><li>tiny</li>\
<li><a href=\"https://github.com/foo/foo-mod\">Source</a></li></ul>\
</div></body></html>";

#[test]
fn scan_page_reads_the_selected_parts() {
    let page = scan_page(PAGE);
    assert_eq!(page.headings, vec![pieces(&["Foo ", "Mod"])]);
    assert_eq!(
        page.repository_links,
        vec![Some("https://github.com/foo/foo-mod".to_string())]
    );
    assert_eq!(page.panel_rows.len(), 2);
    assert_eq!(page.panel_rows[0], pieces(&["Author", "Somebody"]));
    assert_eq!(page.panel_cells.len(), 2);
    assert_eq!(
        page.panel_cells[1],
        vec![pieces(&["Description"]), pieces(&["Adds forty new jokers to the game"])]
    );
    assert_eq!(page.paragraphs.len(), 3);
    assert_eq!(page.list_items.len(), 3);
    assert_eq!(page.blocks.len(), 3);
}

#[test]
fn parse_mod_page_builds_the_record() {
    let item = parse_mod_page(PAGE, "Foo_Mod");
    assert_eq!(item.name, "Foo Mod");
    assert_eq!(
        item.description,
        "Adds forty new jokers to the game Foo Mod is a large content mod with many new cards \
         and decks. Adds a new deck with special rules"
    );
    assert_eq!(item.author, Some("Unknown".to_string()));
    assert_eq!(item.version, None);
    assert_eq!(item.github_url, Some("https://github.com/foo/foo-mod".to_string()));
    assert_eq!(item.wiki_url, "https://balatromods.miraheze.org/wiki/Foo_Mod");
    assert_eq!(item.category, "Unknown");
    assert!(item.dependencies.is_empty());
}

#[test]
fn parse_mod_page_falls_back_to_the_lookup_name() {
    let item = parse_mod_page("<html><body><p>nothing here</p></body></html>", "Bar Mod");
    assert_eq!(item.name, "Bar Mod");
    assert_eq!(item.description, "No description available");
    assert_eq!(item.author, None);
    assert_eq!(item.github_url, None);
}

#[test]
fn mod_page_url_appends_the_name() {
    assert_eq!(mod_page_url("Cryptid"), "https://balatromods.miraheze.org/wiki/Cryptid");
}

#[test]
fn description_takes_three_paragraphs_at_most() {
    let mut page = empty_page();
    for text in [
        "The first paragraph of this page is long enough.",
        "The second paragraph of this page is long enough.",
        "The third paragraph of this page is long enough.",
        "The fourth paragraph of this page is long enough.",
    ] {
        page.paragraphs.push(pieces(&[text]));
    }
    assert_eq!(
        extract_description(&page),
        "The first paragraph of this page is long enough. The second paragraph of this page \
         is long enough. The third paragraph of this page is long enough."
    );
}

#[test]
fn description_counts_panel_values_against_the_paragraphs() {
    let mut page = empty_page();
    page.panel_cells.push(vec![pieces(&["Description"]), pieces(&["A mod about many things"])]);
    page.panel_cells.push(vec![pieces(&["Only one cell: description"])]);
    page.panel_cells.push(vec![pieces(&["description"]), pieces(&["https://example.org/a/long/link"])]);
    for text in [
        "The first paragraph of this page is long enough.",
        "The second paragraph of this page is long enough.",
        "The third paragraph of this page is long enough.",
    ] {
        page.paragraphs.push(pieces(&[text]));
    }
    assert_eq!(
        extract_description(&page),
        "A mod about many things The first paragraph of this page is long enough. The second \
         paragraph of this page is long enough."
    );
}

#[test]
fn description_takes_two_feature_items_at_most() {
    let mut page = empty_page();
    page.list_items.push(pieces(&["Adds a great many jokers"]));
    page.list_items.push(pieces(&["Nothing of interest here at all"]));
    page.list_items.push(pieces(&["Includes", "new", "decks and vouchers"]));
    page.list_items.push(pieces(&["Features a new kind of blind"]));
    assert_eq!(
        extract_description(&page),
        "Adds a great many jokers Includes new decks and vouchers"
    );
}

#[test]
fn description_falls_back_to_the_first_long_block() {
    let mut page = empty_page();
    page.paragraphs.push(pieces(&["too short"]));
    page.blocks.push(pieces(&["Navigation menu of the wiki with many entries"]));
    page.blocks.push(pieces(&["A block of text that is long enough to be taken."]));
    page.blocks.push(pieces(&["Another block of text that is long enough as well."]));
    assert_eq!(extract_description(&page), "A block of text that is long enough to be taken.");
}

#[test]
fn description_is_cut_at_five_hundred_characters() {
    let mut page = empty_page();
    let long = "word ".repeat(200);
    page.paragraphs.push(vec![long]);
    let description = extract_description(&page);
    assert_eq!(description.chars().count(), 500);
    assert!(description.ends_with("..."));
    assert!(description.starts_with("word word word"));
}

#[test]
fn description_without_content_is_the_fixed_sentence() {
    assert_eq!(extract_description(&empty_page()), "No description available");
}

#[test]
fn rules_reject_boilerplate_and_links() {
    assert!(is_kept(Rule::Paragraph, "A perfectly ordinary paragraph."));
    assert!(!is_kept(Rule::Paragraph, "This page lists References and more text"));
    assert!(!is_kept(Rule::Paragraph, "See section 2.1 for all of the details"));
    assert!(!is_kept(Rule::Paragraph, "twenty bytes exactly"));
    assert!(is_kept(Rule::Paragraph, "twenty-one bytes long"));
    assert!(!is_kept(Rule::PanelValue, "ten bytes!"));
    assert!(is_kept(Rule::PanelValue, "eleven byte"));
    assert!(!is_kept(Rule::PanelValue, "http is how this value starts"));
    assert!(is_kept(Rule::Feature, "Adds sixteen new"));
    assert!(!is_kept(Rule::Feature, "Nothing of that kind here"));
    assert!(!is_kept(Rule::Block, "The Categories of this wiki are listed here"));
    assert!(is_kept(Rule::Block, "A block of thirty-one bytes, ok"));
    assert!(!is_kept(Rule::Block, "A block of thirty characters.."));
}

#[test]
fn byte_length_counts_bytes_not_characters() {
    // ten characters, twenty bytes: not more than twenty bytes
    assert!(!is_kept(Rule::Paragraph, "éééééééééé"));
    // eleven characters, twenty-two bytes
    assert!(is_kept(Rule::Paragraph, "ééééééééééé"));
}

#[test]
fn item_detail_trims_the_description() {
    let mut page = empty_page();
    page.blocks.push(pieces(&["A block that ends where a bracket pair was removed ()"]));
    let item = parse_item_detail(&page, "X", "u");
    assert_eq!(item.description, "A block that ends where a bracket pair was removed");
    assert_eq!(item.name, "X");
    assert_eq!(item.wiki_url, "u");
}

#[test]
fn a_heading_without_text_gives_way_to_the_lookup_name() {
    let mut page = empty_page();
    page.headings.push(Vec::new());
    assert_eq!(parse_item_detail(&page, "Lookup", "u").name, "Lookup");
    page.headings[0] = pieces(&["", ""]);
    assert_eq!(parse_item_detail(&page, "Lookup", "u").name, "Lookup");
    page.headings[0] = pieces(&["Shown", " Name"]);
    page.headings.push(pieces(&["Second"]));
    assert_eq!(parse_item_detail(&page, "Lookup", "u").name, "Shown Name");
}

#[test]
fn item_detail_marks_author_and_version_and_takes_the_first_link() {
    let mut page = empty_page();
    page.panel_rows.push(pieces(&["Mod ", "Version", "1.2"]));
    page.repository_links.push(None);
    page.repository_links.push(Some("https://github.com/a/b".to_string()));
    let item = parse_item_detail(&page, "X", "u");
    assert_eq!(item.version, Some("Unknown".to_string()));
    assert_eq!(item.author, None);
    assert_eq!(item.github_url, None);
    page.panel_rows.push(pieces(&["AUTHORS"]));
    page.repository_links.remove(0);
    let item = parse_item_detail(&page, "X", "u");
    assert_eq!(item.author, Some("Unknown".to_string()));
    assert_eq!(item.github_url, Some("https://github.com/a/b".to_string()));
}
