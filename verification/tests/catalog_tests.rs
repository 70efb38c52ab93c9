use balatro_wiki::catalog::{CategoryEntry, ModDatabase, ModInfo};
use balatro_wiki::freshness::{needs_refresh, Timestamp};
use chrono::{Duration, Utc};

fn record(name: &str, category: &str) -> ModInfo {
    ModInfo {
        name: name.to_string(),
        description: format!("About {}", name),
        author: None,
        version: None,
        github_url: None,
        wiki_url: format!("https://balatromods.miraheze.org/wiki/{}", name),
        category: category.to_string(),
        dependencies: Vec::new(),
    }
}

fn entry(name: &str, mods: &[&str]) -> CategoryEntry {
    CategoryEntry { name: name.to_string(), mods: mods.iter().map(|m| m.to_string()).collect() }
}

fn names(db: &ModDatabase) -> Vec<String> {
    db.mods().iter().map(|m| m.name.clone()).collect()
}

#[test]
fn empty_catalog_has_nothing() {
    let db = ModDatabase::empty("2024-01-01T00:00:00+00:00".to_string());
    assert!(db.mods().is_empty());
    assert!(db.categories().is_empty());
    assert_eq!(db.last_updated(), "2024-01-01T00:00:00+00:00");
    assert_eq!(db.find("Foo"), None);
    assert!(db.get("Foo").is_none());
}

#[test]
fn new_catalog_is_stamped_with_a_readable_time() {
    let db = ModDatabase::new();
    assert!(db.mods().is_empty());
    assert!(db.categories().is_empty());
    assert!(chrono::DateTime::parse_from_rfc3339(db.last_updated()).is_ok());
}

#[test]
fn with_mod_appends_new_names_and_replaces_known_ones() {
    let db = ModDatabase::empty(String::new())
        .with_mod(record("A", "one"))
        .with_mod(record("B", "one"))
        .with_mod(record("A", "two"));
    assert_eq!(names(&db), vec!["A", "B"]);
    assert_eq!(db.mods()[0].category, "two");
    assert_eq!(db.find("B"), Some(1));
    assert_eq!(db.get("A").unwrap().category, "two");
    assert_eq!(db.find("a"), None);
}

#[test]
fn with_category_appends_new_names_and_replaces_known_ones() {
    let db = ModDatabase::empty(String::new())
        .with_category(entry("one", &["A"]))
        .with_category(entry("two", &[]))
        .with_category(entry("one", &["A", "B"]));
    assert_eq!(db.categories().len(), 2);
    assert_eq!(db.categories()[0].name, "one");
    assert_eq!(db.categories()[0].mods, vec!["A", "B"]);
    assert_eq!(db.find_category("two"), Some(1));
    assert_eq!(db.find_category("three"), None);
}

#[test]
fn from_parts_keeps_the_later_of_two_with_one_name() {
    let db = ModDatabase::from_parts(
        &vec![record("A", "one"), record("B", "two"), record("A", "two")],
        &vec![entry("one", &["A"]), entry("two", &["B"]), entry("one", &[])],
        "stamp".to_string(),
    );
    assert_eq!(names(&db), vec!["A", "B"]);
    assert_eq!(db.mods()[0].category, "two");
    assert_eq!(db.categories().len(), 2);
    assert!(db.categories()[0].mods.is_empty());
    assert_eq!(db.last_updated(), "stamp");
}

#[test]
fn clone_keeps_every_field() {
    let mut item = record("A", "one");
    item.author = Some("me".to_string());
    item.dependencies = vec!["Steamodded".to_string()];
    let copy = item.clone();
    assert_eq!(copy.name, "A");
    assert_eq!(copy.author, Some("me".to_string()));
    assert_eq!(copy.dependencies, vec!["Steamodded"]);
    assert_eq!(copy.wiki_url, item.wiki_url);
    let category = entry("one", &["A"]).clone();
    assert_eq!(category.mods, vec!["A"]);
}

#[test]
fn snapshot_of_twenty_five_hours_is_stale() {
    let stamp = (Utc::now() - Duration::hours(25)).to_rfc3339();
    let db = ModDatabase::empty(stamp).with_mod(record("A", "one"));
    assert!(db.should_update());
}

#[test]
fn snapshot_of_one_hour_is_fresh() {
    let stamp = (Utc::now() - Duration::hours(1)).to_rfc3339();
    let db = ModDatabase::empty(stamp).with_mod(record("A", "one"));
    assert!(!db.should_update());
}

#[test]
fn empty_snapshot_is_stale_whatever_its_stamp() {
    let db = ModDatabase::empty(Utc::now().to_rfc3339());
    assert!(db.should_update());
    let at = Timestamp { seconds: 0, nanos: 0 };
    assert!(db.should_update_at(at));
}

#[test]
fn unreadable_stamp_is_stale() {
    let db = ModDatabase::empty("yesterday".to_string()).with_mod(record("A", "one"));
    assert!(db.should_update());
    assert!(db.should_update_at(Timestamp { seconds: 0, nanos: 0 }));
}

#[test]
fn staleness_begins_at_twenty_four_hours_exactly() {
    let db = ModDatabase::empty("2024-03-01T12:00:00.500+00:00".to_string())
        .with_mod(record("A", "one"));
    let then: i64 = 1_709_294_400;
    assert!(!db.should_update_at(Timestamp { seconds: then + 86_400, nanos: 499_999_999 }));
    assert!(db.should_update_at(Timestamp { seconds: then + 86_400, nanos: 500_000_000 }));
    assert!(!db.should_update_at(Timestamp { seconds: then + 3_600, nanos: 0 }));
    assert!(db.should_update_at(Timestamp { seconds: then + 90_000, nanos: 0 }));
    assert!(!db.should_update_at(Timestamp { seconds: then - 90_000, nanos: 0 }));
}

#[test]
fn stamp_with_an_offset_is_read_as_the_same_instant() {
    let db = ModDatabase::empty("2024-03-01T14:00:00+02:00".to_string())
        .with_mod(record("A", "one"));
    let then: i64 = 1_709_294_400;
    assert!(!db.should_update_at(Timestamp { seconds: then + 86_399, nanos: 999_999_999 }));
    assert!(db.should_update_at(Timestamp { seconds: then + 86_400, nanos: 0 }));
}

#[test]
fn needs_refresh_decides_by_count_stamp_and_age() {
    let now = Timestamp { seconds: 1_000_000, nanos: 0 };
    let day_ago = Timestamp { seconds: 1_000_000 - 86_400, nanos: 0 };
    let almost = Timestamp { seconds: 1_000_000 - 86_400, nanos: 1 };
    assert!(needs_refresh(0, Some(now), now));
    assert!(needs_refresh(3, None, now));
    assert!(needs_refresh(3, Some(day_ago), now));
    assert!(!needs_refresh(3, Some(almost), now));
    assert!(!needs_refresh(3, Some(now), now));
    let far = Timestamp { seconds: i64::MIN, nanos: 0 };
    let near = Timestamp { seconds: i64::MAX, nanos: 999_999_999 };
    assert!(needs_refresh(1, Some(far), near));
    assert!(!needs_refresh(1, Some(near), far));
}

#[test]
fn a_record_without_a_name_is_not_taken() {
    let db = ModDatabase::empty(String::new()).with_mod(record("A", "one")).with_mod(record("", "one"));
    assert_eq!(names(&db), vec!["A"]);
    let db = ModDatabase::from_parts(
        &vec![record("", "one"), record("B", "two")],
        &Vec::new(),
        String::new(),
    );
    assert_eq!(names(&db), vec!["B"]);
    assert_eq!(db.find(""), None);
}

#[test]
fn new_catalog_stamp_stands_for_the_present() {
    let before = Utc::now();
    let db = ModDatabase::new();
    let after = Utc::now();
    let at = chrono::DateTime::parse_from_rfc3339(db.last_updated()).unwrap().with_timezone(&Utc);
    assert!(before <= at && at <= after);
    assert_eq!(&at.to_rfc3339(), db.last_updated());
}
