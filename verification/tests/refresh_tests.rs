use balatro_wiki::catalog::ModInfo;
use balatro_wiki::orchestrator::{Action, Event, Phase, Refresh};
use balatro_wiki::refresh::{
    category_descriptors, collect_work, contains_name, members_in, merge, owner_of,
    CategoryDescriptor, CategoryListing, ItemOutcome,
};

fn record(name: &str) -> ModInfo {
    ModInfo {
        name: name.to_string(),
        description: format!("About {}", name),
        author: None,
        version: None,
        github_url: None,
        wiki_url: format!("https://balatromods.miraheze.org/wiki/{}", name),
        category: "Unknown".to_string(),
        dependencies: Vec::new(),
    }
}

fn strings(texts: &[&str]) -> Vec<String> {
    texts.iter().map(|t| t.to_string()).collect()
}

fn listing(category: &str, members: &[&str]) -> CategoryListing {
    CategoryListing { category: category.to_string(), members: strings(members) }
}

fn ok(name: &str) -> ItemOutcome {
    ItemOutcome { name: name.to_string(), item: Some(record(name)) }
}

fn failed(name: &str) -> ItemOutcome {
    ItemOutcome { name: name.to_string(), item: None }
}

#[test]
fn six_categories_are_configured() {
    let descriptors = category_descriptors();
    let names: Vec<&str> = descriptors.iter().map(|d| d.name.as_str()).collect();
    assert_eq!(
        names,
        vec![
            "Content Mods",
            "Joker Mods",
            "Quality of Life Mods",
            "Crossover Mods",
            "Technical Mods",
            "API Mods"
        ]
    );
    assert_eq!(descriptors[2].key, "Quality%20of%20Life%20Mods");
    assert_eq!(descriptors[5].key, "API%20Mods");
}

#[test]
fn work_holds_every_listed_name_once() {
    let listings =
        vec![listing("one", &["A", "B", "A"]), listing("two", &[]), listing("three", &["C", "B"])];
    assert_eq!(collect_work(&listings), strings(&["A", "B", "C"]));
    assert_eq!(collect_work(&Vec::new()), Vec::<String>::new());
}

#[test]
fn the_last_listing_owns_a_name() {
    let listings = vec![listing("one", &["X", "A"]), listing("two", &["X"]), listing("three", &["B"])];
    assert_eq!(owner_of(&listings, "X"), Some("two".to_string()));
    assert_eq!(owner_of(&listings, "A"), Some("one".to_string()));
    assert_eq!(owner_of(&listings, "Z"), None);
    assert!(contains_name(&strings(&["A", "B"]), "B"));
    assert!(!contains_name(&strings(&["A", "B"]), "b"));
}

#[test]
fn merge_files_a_name_of_two_categories_under_the_last() {
    let categories = strings(&["one", "two"]);
    let listings = vec![listing("one", &["X", "A"]), listing("two", &["X"])];
    let outcomes = vec![ok("X"), ok("A")];
    let out = merge(&categories, &listings, &outcomes, "stamp".to_string());
    let db = out.database;
    assert_eq!(db.get("X").unwrap().category, "two");
    assert_eq!(db.get("A").unwrap().category, "one");
    assert_eq!(db.categories()[0].name, "one");
    assert_eq!(db.categories()[0].mods, strings(&["A"]));
    assert_eq!(db.categories()[1].name, "two");
    assert_eq!(db.categories()[1].mods, strings(&["X"]));
    assert_eq!(db.last_updated(), "stamp");
    assert!(out.failed.is_empty());
}

#[test]
fn merge_leaves_out_what_failed() {
    let categories = strings(&["one"]);
    let listings = vec![listing("one", &["Foo Mod", "Bar Mod"])];
    let outcomes = vec![failed("Bar Mod"), ok("Foo Mod")];
    let out = merge(&categories, &listings, &outcomes, "stamp".to_string());
    assert!(out.database.get("Foo Mod").is_some());
    assert!(out.database.get("Bar Mod").is_none());
    assert_eq!(out.database.mods().len(), 1);
    assert_eq!(out.database.categories()[0].mods, strings(&["Foo Mod"]));
    assert_eq!(out.failed, strings(&["Bar Mod"]));
}

#[test]
fn merge_does_not_depend_on_the_order_of_the_outcomes() {
    let categories = strings(&["one", "two"]);
    let listings = vec![listing("one", &["A", "B"]), listing("two", &["C", "A"])];
    let first = merge(&categories, &listings, &vec![ok("A"), ok("B"), ok("C")], String::new());
    let second = merge(&categories, &listings, &vec![ok("C"), ok("B"), ok("A")], String::new());
    for name in ["A", "B", "C"] {
        assert_eq!(
            first.database.get(name).unwrap().category,
            second.database.get(name).unwrap().category
        );
    }
    assert_eq!(first.database.categories()[1].mods, strings(&["A", "C"]));
    assert_eq!(second.database.categories()[1].mods, strings(&["C", "A"]));
}

#[test]
fn merge_keeps_one_record_where_two_pages_give_one_name() {
    let categories = strings(&["one", "two"]);
    let listings = vec![listing("one", &["Old Name"]), listing("two", &["New Name"])];
    let mut redirected = ok("Old Name");
    redirected.item.as_mut().unwrap().name = "New Name".to_string();
    let outcomes = vec![redirected, ok("New Name")];
    let db = merge(&categories, &listings, &outcomes, String::new()).database;
    assert_eq!(db.mods().len(), 1);
    assert_eq!(db.get("New Name").unwrap().category, "two");
    assert!(db.categories()[0].mods.is_empty());
    assert_eq!(db.categories()[1].mods, strings(&["New Name"]));
}

#[test]
fn merge_passes_over_an_outcome_that_no_listing_has() {
    let out = merge(&strings(&["one"]), &vec![listing("one", &["A"])], &vec![ok("Z"), ok("A")], String::new());
    assert_eq!(out.database.mods().len(), 1);
    assert!(out.database.get("Z").is_none());
    assert!(out.failed.is_empty());
}

#[test]
fn merge_without_answers_gives_an_empty_snapshot_with_all_categories() {
    let out = merge(&strings(&["one", "two", "one"]), &Vec::new(), &Vec::new(), "s".to_string());
    assert!(out.database.mods().is_empty());
    assert_eq!(out.database.categories().len(), 2);
    assert!(out.database.categories()[0].mods.is_empty());
}

#[test]
fn members_are_the_names_filed_under_a_category() {
    let mut a = record("A");
    a.category = "one".to_string();
    let mut b = record("B");
    b.category = "two".to_string();
    let mut c = record("C");
    c.category = "one".to_string();
    assert_eq!(members_in(&vec![a, b, c], "one"), strings(&["A", "C"]));
}

fn two_categories() -> Vec<CategoryDescriptor> {
    vec![
        CategoryDescriptor { name: "one".to_string(), key: "k1".to_string() },
        CategoryDescriptor { name: "two".to_string(), key: "k2".to_string() },
    ]
}

#[test]
fn refresh_runs_through_its_phases() {
    let refresh = Refresh::new(two_categories(), "stamp".to_string());
    assert_eq!(refresh.phase(), Phase::Idle);

    let (refresh, action) = refresh.step(Event::Start);
    assert_eq!(refresh.phase(), Phase::CollectingCategories);
    assert!(matches!(action, Action::FetchCategory { ref name, ref key } if name == "one" && key == "k1"));

    let (refresh, action) =
        refresh.step(Event::CategoryListed(Some(strings(&["Foo Mod", "Bar Mod"]))));
    assert_eq!(refresh.phase(), Phase::CollectingCategories);
    assert!(matches!(action, Action::FetchCategory { ref name, ref key } if name == "two" && key == "k2"));

    let (refresh, action) = refresh.step(Event::CategoryListed(Some(strings(&["Foo Mod"]))));
    assert_eq!(refresh.phase(), Phase::FetchingItems);
    assert!(matches!(action, Action::FetchItems { ref names } if *names == strings(&["Foo Mod", "Bar Mod"])));

    let (refresh, action) = refresh.step(Event::ItemFetched(failed("Bar Mod")));
    assert_eq!(refresh.phase(), Phase::FetchingItems);
    assert!(matches!(action, Action::Wait));

    let (refresh, action) = refresh.step(Event::ItemFetched(ok("Foo Mod")));
    assert_eq!(refresh.phase(), Phase::Merging);
    assert!(matches!(action, Action::Merge));

    let (refresh, action) = refresh.step(Event::Merge);
    assert_eq!(refresh.phase(), Phase::Done);
    match action {
        Action::Finish(result) => {
            let db = result.database;
            assert_eq!(db.mods().len(), 1);
            assert_eq!(db.get("Foo Mod").unwrap().category, "two");
            assert!(db.get("Bar Mod").is_none());
            assert!(db.categories()[0].mods.is_empty());
            assert_eq!(db.categories()[1].mods, strings(&["Foo Mod"]));
            assert_eq!(db.last_updated(), "stamp");
            assert_eq!(result.failed, strings(&["Bar Mod"]));
        }
        other => panic!("unexpected action {:?}", other),
    }

    let (refresh, action) = refresh.step(Event::Start);
    assert_eq!(refresh.phase(), Phase::Done);
    assert!(matches!(action, Action::Rejected));
}

#[test]
fn a_category_that_fails_gives_no_members() {
    let (refresh, _) = Refresh::new(two_categories(), String::new()).step(Event::Start);
    let (refresh, _) = refresh.step(Event::CategoryListed(None));
    let (refresh, action) = refresh.step(Event::CategoryListed(Some(strings(&["A"]))));
    assert_eq!(refresh.phase(), Phase::FetchingItems);
    assert!(matches!(action, Action::FetchItems { ref names } if *names == strings(&["A"])));
}

#[test]
fn a_refresh_without_members_still_ends_with_a_snapshot() {
    let (refresh, _) = Refresh::new(two_categories(), "s".to_string()).step(Event::Start);
    let (refresh, _) = refresh.step(Event::CategoryListed(None));
    let (refresh, action) = refresh.step(Event::CategoryListed(None));
    assert_eq!(refresh.phase(), Phase::Merging);
    assert!(matches!(action, Action::Merge));
    let (refresh, action) = refresh.step(Event::Merge);
    assert_eq!(refresh.phase(), Phase::Done);
    match action {
        Action::Finish(result) => {
            assert!(result.database.mods().is_empty());
            assert_eq!(result.database.categories().len(), 2);
            assert!(result.failed.is_empty());
        }
        other => panic!("unexpected action {:?}", other),
    }
}

#[test]
fn a_refresh_without_categories_goes_straight_to_merging() {
    let (refresh, action) = Refresh::new(Vec::new(), String::new()).step(Event::Start);
    assert_eq!(refresh.phase(), Phase::Merging);
    assert!(matches!(action, Action::Merge));
}

#[test]
fn events_that_do_not_fit_are_rejected() {
    let refresh = Refresh::new(two_categories(), String::new());
    let (refresh, action) = refresh.step(Event::Merge);
    assert_eq!(refresh.phase(), Phase::Idle);
    assert!(matches!(action, Action::Rejected));
    let (refresh, action) = refresh.step(Event::ItemFetched(ok("A")));
    assert_eq!(refresh.phase(), Phase::Idle);
    assert!(matches!(action, Action::Rejected));

    let (refresh, _) = refresh.step(Event::Start);
    let (refresh, action) = refresh.step(Event::Start);
    assert_eq!(refresh.phase(), Phase::CollectingCategories);
    assert!(matches!(action, Action::Rejected));

    let (refresh, _) = refresh.step(Event::CategoryListed(Some(strings(&["A", "B"]))));
    let (refresh, _) = refresh.step(Event::CategoryListed(None));
    let (refresh, action) = refresh.step(Event::ItemFetched(ok("Z")));
    assert_eq!(refresh.phase(), Phase::FetchingItems);
    assert!(matches!(action, Action::Rejected));
    let (refresh, action) = refresh.step(Event::ItemFetched(ok("A")));
    assert!(matches!(action, Action::Wait));
    let (refresh, action) = refresh.step(Event::ItemFetched(failed("A")));
    assert_eq!(refresh.phase(), Phase::FetchingItems);
    assert!(matches!(action, Action::Rejected));
    let (refresh, action) = refresh.step(Event::CategoryListed(None));
    assert_eq!(refresh.phase(), Phase::FetchingItems);
    assert!(matches!(action, Action::Rejected));
}

#[test]
fn begin_asks_for_the_first_configured_category() {
    let refresh = Refresh::begin();
    assert_eq!(refresh.phase(), Phase::Idle);
    let (_, action) = refresh.step(Event::Start);
    assert!(matches!(
        action,
        Action::FetchCategory { ref name, ref key } if name == "Content Mods" && key == "Content%20Mods"
    ));
}

#[test]
fn merge_takes_no_record_without_a_name() {
    let mut nameless = ok("A");
    nameless.item.as_mut().unwrap().name = String::new();
    let out = merge(
        &strings(&["one"]),
        &vec![listing("one", &["A", "B"])],
        &vec![nameless, ok("B")],
        String::new(),
    );
    assert_eq!(out.database.mods().len(), 1);
    assert_eq!(out.database.mods()[0].name, "B");
    assert_eq!(out.database.categories()[0].mods, strings(&["B"]));
    assert!(out.failed.is_empty());
}

#[test]
fn begin_stamps_the_snapshot_with_the_present() {
    let before = chrono::Utc::now();
    let (mut refresh, _) = Refresh::begin().step(Event::Start);
    let after = chrono::Utc::now();
    let mut action = Action::Wait;
    for _ in 0..6 {
        let (next, answer) = refresh.step(Event::CategoryListed(None));
        refresh = next;
        action = answer;
    }
    assert!(matches!(action, Action::Merge));
    match refresh.step(Event::Merge).1 {
        Action::Finish(result) => {
            let stamp = result.database.last_updated().clone();
            let at = chrono::DateTime::parse_from_rfc3339(&stamp)
                .unwrap()
                .with_timezone(&chrono::Utc);
            assert!(before <= at && at <= after);
            assert_eq!(at.to_rfc3339(), stamp);
            assert_eq!(result.database.categories().len(), 6);
        }
        other => panic!("unexpected action {:?}", other),
    }
}
