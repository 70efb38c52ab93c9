use balatro_wiki::error::WikiError;
use balatro_wiki::listing::{keep_content_titles, names_content, parse_category_members};

fn strings(texts: &[&str]) -> Vec<String> {
    texts.iter().map(|t| t.to_string()).collect()
}

#[test]
fn listing_keeps_content_pages_only() {
    let answer = "{\"batchcomplete\":\"\",\"query\":{\"categorymembers\":[\
        {\"pageid\":1,\"ns\":0,\"title\":\"Foo Mod\"},\
        {\"pageid\":2,\"ns\":14,\"title\":\"Category:Meta\"}]}}";
    assert_eq!(parse_category_members(answer).unwrap(), strings(&["Foo Mod"]));
}

#[test]
fn listing_skips_files_templates_and_members_without_title() {
    let answer = "{\"query\":{\"categorymembers\":[\
        {\"title\":\"File:Logo.png\"},{\"title\":\"Cryptid\"},{\"pageid\":7},\
        {\"title\":42},{\"title\":\"Template:Infobox\"},{\"title\":\"Bunco\"}]}}";
    assert_eq!(parse_category_members(answer).unwrap(), strings(&["Cryptid", "Bunco"]));
}

#[test]
fn listing_without_members_is_empty() {
    assert_eq!(parse_category_members("{}").unwrap(), Vec::<String>::new());
    assert_eq!(parse_category_members("{\"query\":{}}").unwrap(), Vec::<String>::new());
    assert_eq!(
        parse_category_members("{\"query\":{\"categorymembers\":{}}}").unwrap(),
        Vec::<String>::new()
    );
    assert_eq!(parse_category_members("[1,2]").unwrap(), Vec::<String>::new());
}

#[test]
fn listing_that_is_no_json_is_a_parse_error() {
    let result = parse_category_members("<html>not json</html>");
    assert!(matches!(result, Err(WikiError::Parse { .. })));
    let message = result.unwrap_err().message();
    assert!(message.starts_with("Malformed response: "));
    assert!(message.len() > "Malformed response: ".len());
}

#[test]
fn content_titles_are_told_by_their_prefix() {
    assert!(names_content("Foo Mod"));
    assert!(!names_content("Category:Meta"));
    assert!(!names_content("File:Shot.png"));
    assert!(!names_content("Template:Stub"));
    assert!(names_content("category:lowercase"));
    assert_eq!(
        keep_content_titles(&strings(&["Foo Mod", "Category:Meta"])),
        strings(&["Foo Mod"])
    );
}

#[test]
fn error_messages_name_what_failed() {
    let fetch = WikiError::Fetch { url: "http://x".to_string(), cause: "timeout".to_string() };
    assert_eq!(fetch.message(), "Failed to fetch http://x: timeout");
    let missing = WikiError::NotFound { name: "Nope".to_string() };
    assert_eq!(missing.message(), "Mod 'Nope' not found");
    let corrupt = WikiError::CacheCorrupt { cause: "eof".to_string() };
    assert_eq!(corrupt.message(), "Unreadable cache: eof");
}
