use balatro_wiki::json::{parse_json, Json, Member};
use balatro_wiki::listing::{category_listing_url, collect_titles};

#[test]
fn json_text_is_read_into_plain_values() {
    let value = parse_json("{\"b\":[1,\"two\",null,true,-2.5e3],\"a\":{\"x\":\"y\"}}").unwrap();
    let list = value.get("b").unwrap().as_array().unwrap();
    assert_eq!(list.len(), 5);
    assert!(matches!(&list[0], Json::Number(n) if n == "1"));
    assert_eq!(list[1].as_str(), Some("two"));
    assert!(matches!(list[2], Json::Null));
    assert!(matches!(list[3], Json::Bool(true)));
    assert!(matches!(&list[4], Json::Number(n) if n == "-2500.0"));
    assert_eq!(value.get("a").unwrap().get("x").unwrap().as_str(), Some("y"));
    assert!(value.get("c").is_none());
    assert!(value.get("a").unwrap().as_array().is_none());
    assert!(value.get("a").unwrap().as_str().is_none());
    assert!(list[1].get("x").is_none());
}

#[test]
fn json_keeps_the_last_of_two_members_with_one_name() {
    let value = parse_json("{\"a\":\"first\",\"a\":\"second\"}").unwrap();
    assert_eq!(value.get("a").unwrap().as_str(), Some("second"));
}

#[test]
fn text_that_is_no_json_is_refused_with_a_reason() {
    let reason = parse_json("{\"a\":").unwrap_err();
    assert!(!reason.is_empty());
    assert!(parse_json("").is_err());
    assert!(parse_json("{} trailing").is_err());
}

#[test]
fn get_takes_the_first_member_of_a_name() {
    let value = Json::Object(vec![
        Member { name: "a".to_string(), value: Json::Text("first".to_string()) },
        Member { name: "b".to_string(), value: Json::Null },
        Member { name: "a".to_string(), value: Json::Text("second".to_string()) },
    ]);
    assert_eq!(value.get("a").unwrap().as_str(), Some("first"));
    assert!(matches!(value.get("b"), Some(Json::Null)));
}

#[test]
fn titles_are_collected_from_the_member_list() {
    let answer = parse_json(
        "{\"query\":{\"categorymembers\":[{\"title\":\"A\"},{\"ns\":0},{\"title\":\"Category:B\"}]}}",
    )
    .unwrap();
    assert_eq!(collect_titles(&answer), vec!["A", "Category:B"]);
    assert!(collect_titles(&Json::Null).is_empty());
    assert!(collect_titles(&parse_json("{\"query\":[]}").unwrap()).is_empty());
}

#[test]
fn listing_url_names_the_category() {
    assert_eq!(
        category_listing_url("Joker%20Mods"),
        "https://balatromods.miraheze.org/w/api.php?action=query&list=categorymembers&cmtitle=Category:Joker%20Mods&format=json&cmlimit=50"
    );
}
