//! Questions put to a catalog: what a category holds, which mods match a
//! search, what is known of a mod.

use crate::catalog::{
    category_position, category_views, distinct_mods, has_category, has_mod, is_filed,
    mod_position, mod_views, CategoryView, DatabaseView, ModDatabase, ModInfo, ModInfoView,
};
use crate::error::WikiError;
use crate::text::{chars_of, contains, contains_chars, lowercase, lowercase_of, same_text};
use vstd::prelude::*;

verus! {

/// What the name of a mod adds to its score: 100 where its lowercase form
/// is the query, 50 where it only holds the query.
pub open spec fn name_score(item: ModInfoView, query: Seq<char>) -> int {
    if lowercase(item.name) == query {
        100
    } else if contains(lowercase(item.name), query) {
        50
    } else {
        0
    }
}

/// What the other fields of a mod add to its score: 25 for a description,
/// 20 for an author and 15 for a category whose lowercase form holds the
/// query.
pub open spec fn secondary_score(item: ModInfoView, query: Seq<char>) -> int {
    (if contains(lowercase(item.description), query) {
        25int
    } else {
        0
    }) + (match item.author {
        Some(author) => if contains(lowercase(author), query) {
            20int
        } else {
            0
        },
        None => 0,
    }) + (if contains(lowercase(item.category), query) {
        15int
    } else {
        0
    })
}

/// How well a mod matches a query that is given in lowercase.
pub open spec fn search_score(item: ModInfoView, query: Seq<char>) -> int {
    name_score(item, query) + secondary_score(item, query)
}

/// Whether the lowercase form of `text` holds `query`.
fn lower_has(text: &str, query: &Vec<char>) -> (found: bool)
    ensures
        found == contains(lowercase(text@), query@),
{
    let lower = lowercase_of(text);
    contains_chars(&chars_of(lower.as_str()), query)
}

/// Scores a mod against a query that is given in lowercase.
pub fn calculate_search_score(mod_info: &ModInfo, query: &str) -> (score: i32)
    ensures
        score == search_score(mod_info@, query@),
        0 <= score <= 160,
{
    let needle = chars_of(query);
    let mut score: i32 = 0;
    let name = lowercase_of(mod_info.name.as_str());
    if same_text(name.as_str(), query) {
        score += 100;
    } else if contains_chars(&chars_of(name.as_str()), &needle) {
        score += 50;
    }
    if lower_has(mod_info.description.as_str(), &needle) {
        score += 25;
    }
    if let Some(author) = &mod_info.author {
        if lower_has(author.as_str(), &needle) {
            score += 20;
        }
    }
    if lower_has(mod_info.category.as_str(), &needle) {
        score += 15;
    }
    score
}

/// The name counts more where it is the query than where it only holds it.
pub proof fn lemma_exact_name_counts_more(item: ModInfoView, exact: Seq<char>, partial: Seq<char>)
    requires
        lowercase(item.name) == exact,
        lowercase(item.name) != partial,
    ensures
        name_score(item, exact) == 100,
        name_score(item, partial) <= 50,
        name_score(item, exact) > name_score(item, partial),
{
}

/// A query that is the name of a mod scores higher on it than a query that
/// the name only holds, unless the other fields make up for the difference
/// of 50.
pub proof fn lemma_exact_name_outranks_substring(
    item: ModInfoView,
    exact: Seq<char>,
    partial: Seq<char>,
)
    requires
        lowercase(item.name) == exact,
        lowercase(item.name) != partial,
        contains(lowercase(item.name), partial),
        secondary_score(item, partial) < secondary_score(item, exact) + 50,
    ensures
        search_score(item, exact) > search_score(item, partial),
{
}

/// A mod that matches a search: its place among the records of the
/// catalog and its score.
#[derive(Clone, Copy, Debug, PartialEq, Eq, Structural)]
pub struct SearchHit {
    pub index: usize,
    pub score: i32,
}

/// The best matches of a search and the number of all matches.
#[derive(Debug)]
pub struct SearchResults {
    pub hits: Vec<SearchHit>,
    pub total: usize,
}

/// The number of matches that a search hands out at most.
pub const SEARCH_LIMIT: usize = 20;

/// `first` is listed before `second`: it has the higher score, or the same
/// score and the earlier place in the catalog.
pub open spec fn comes_before(first: SearchHit, second: SearchHit) -> bool {
    first.score > second.score || (first.score == second.score && first.index < second.index)
}

/// `hit` is listed before a record at `index` with the score `score`.
pub open spec fn outranks(hit: SearchHit, index: int, score: int) -> bool {
    hit.score > score || (hit.score == score && hit.index < index)
}

/// Every hit is listed before the hits that follow it.
pub open spec fn is_ranked(hits: Seq<SearchHit>) -> bool {
    forall|j: int, k: int| 0 <= j < k < hits.len() ==> comes_before(hits[j], hits[k])
}

/// The hit names a record of `mods` with the score that the record has for
/// the lowercase query `query`, which is above zero.
pub open spec fn is_match(mods: Seq<ModInfoView>, query: Seq<char>, hit: SearchHit) -> bool {
    &&& hit.index < mods.len()
    &&& hit.score == search_score(mods[hit.index as int], query)
    &&& hit.score > 0
}

/// The number of records with a score above zero.
pub open spec fn match_count(mods: Seq<ModInfoView>, query: Seq<char>) -> nat
    decreases mods.len(),
{
    if mods.len() == 0 {
        0
    } else {
        match_count(mods.drop_last(), query) + if search_score(mods.last(), query) > 0 {
            1nat
        } else {
            0
        }
    }
}

/// The record at `index` is among the hits.
pub open spec fn is_listed(hits: Seq<SearchHit>, index: int) -> bool {
    exists|k: int| 0 <= k < hits.len() && (#[trigger] hits[k]).index == index
}

/// Puts a hit into a ranked list at its place. The hit names a later
/// record than every hit of the list, so it goes behind those of the same
/// score.
fn insert_ranked(hits: &mut Vec<SearchHit>, hit: SearchHit)
    requires
        is_ranked(old(hits)@),
        forall|k: int| 0 <= k < old(hits)@.len() ==> (#[trigger] old(hits)@[k]).index < hit.index,
    ensures
        is_ranked(final(hits)@),
        exists|at: int| 0 <= at <= old(hits)@.len() && final(hits)@ == old(hits)@.insert(at, hit),
{
    let mut at: usize = 0;
    while at < hits.len() && hits[at].score >= hit.score
        invariant
            at <= hits.len(),
            forall|k: int| 0 <= k < at ==> (#[trigger] hits@[k]).score >= hit.score,
        decreases hits.len() - at,
    {
        at += 1;
    }
    let ghost before = hits@;
    hits.insert(at, hit);
    proof {
        let after = hits@;
        assert(after == before.insert(at as int, hit));
        assert forall|j: int, k: int| 0 <= j < k < after.len() implies comes_before(
            after[j],
            after[k],
        ) by {
            if k < at {
                assert(after[j] == before[j] && after[k] == before[k]);
            } else if k == at {
                assert(after[j] == before[j]);
            } else if j < at {
                assert(after[j] == before[j] && after[k] == before[k - 1]);
            } else if j == at {
                assert(after[k] == before[k - 1]);
                assert(comes_before(before[at as int], before[k - 1]) || k - 1 == at);
            } else {
                assert(after[j] == before[j - 1] && after[k] == before[k - 1]);
            }
        }
    }
}

/// Searches the catalog for `query`, whatever its case. Every record with
/// a score above zero is a match; the matches are ranked by falling score,
/// those of one score in the order of the catalog; the first 20 are handed
/// out, with the number of all matches.
pub fn search_mods(db: &ModDatabase, query: &str) -> (out: SearchResults)
    ensures
        out.total == match_count(db@.mods, lowercase(query@)),
        out.hits@.len() == if out.total <= SEARCH_LIMIT {
            out.total
        } else {
            SEARCH_LIMIT
        },
        is_ranked(out.hits@),
        forall|k: int|
            0 <= k < out.hits@.len() ==> is_match(
                db@.mods,
                lowercase(query@),
                #[trigger] out.hits@[k],
            ),
        forall|j: int, k: int|
            0 <= j < k < out.hits@.len() ==> out.hits@[j].score >= out.hits@[k].score,
        forall|i: int, k: int|
            0 <= i < db@.mods.len() && search_score(db@.mods[i], lowercase(query@)) > 0
                && !is_listed(out.hits@, i) && 0 <= k < out.hits@.len() ==> outranks(
                #[trigger] out.hits@[k],
                i,
                search_score(#[trigger] db@.mods[i], lowercase(query@)),
            ),
        forall|i: int|
            0 <= i < db@.mods.len() && search_score(#[trigger] db@.mods[i], lowercase(query@)) > 0
                && out.total <= SEARCH_LIMIT ==> is_listed(out.hits@, i),
{
    let needle = lowercase_of(query);
    let mods = db.mods();
    let ghost records = db@.mods;
    let ghost wanted = lowercase(query@);
    let mut hits: Vec<SearchHit> = Vec::new();
    let mut i: usize = 0;
    proof {
        assert(records.take(0) =~= Seq::<ModInfoView>::empty());
    }
    while i < mods.len()
        invariant
            i <= mods.len(),
            records == mod_views(mods@),
            wanted == needle@,
            is_ranked(hits@),
            hits@.len() == match_count(records.take(i as int), wanted),
            forall|k: int|
                0 <= k < hits@.len() ==> is_match(records, wanted, #[trigger] hits@[k])
                    && hits@[k].index < i,
            forall|j: int|
                0 <= j < i && search_score(#[trigger] records[j], wanted) > 0 ==> is_listed(
                    hits@,
                    j,
                ),
        decreases mods.len() - i,
    {
        proof {
            assert(records.take(i + 1).drop_last() =~= records.take(i as int));
            assert(records.take(i + 1).last() == records[i as int]);
        }
        let score = calculate_search_score(&mods[i], needle.as_str());
        if score > 0 {
            let ghost before = hits@;
            let hit = SearchHit { index: i, score };
            insert_ranked(&mut hits, hit);
            proof {
                let at = choose|at: int| 0 <= at <= before.len() && hits@ == before.insert(at, hit);
                assert forall|k: int| 0 <= k < hits@.len() implies is_match(
                    records,
                    wanted,
                    #[trigger] hits@[k],
                ) && hits@[k].index < i + 1 by {
                    if k < at {
                        assert(hits@[k] == before[k]);
                    } else if k > at {
                        assert(hits@[k] == before[k - 1]);
                    }
                }
                assert forall|j: int|
                    0 <= j < i + 1 && search_score(
                        #[trigger] records[j],
                        wanted,
                    ) > 0 implies is_listed(hits@, j) by {
                    if j < i {
                        assert(is_listed(before, j));
                        let k = choose|k: int|
                            0 <= k < before.len() && (#[trigger] before[k]).index == j;
                        if k < at {
                            assert(hits@[k].index == j);
                        } else {
                            assert(hits@[k + 1].index == j);
                        }
                    } else {
                        assert(hits@[at].index == j);
                    }
                }
            }
        }
        i += 1;
    }
    let total = hits.len();
    let ghost all = hits@;
    hits.truncate(SEARCH_LIMIT);
    proof {
        assert(records.take(mods.len() as int) =~= records);
        assert forall|i: int, k: int|
            0 <= i < records.len() && search_score(records[i], wanted) > 0 && !is_listed(hits@, i)
                && 0 <= k < hits@.len() implies outranks(
            #[trigger] hits@[k],
            i,
            search_score(#[trigger] records[i], wanted),
        ) by {
            assert(is_listed(all, i));
            let at = choose|at: int| 0 <= at < all.len() && (#[trigger] all[at]).index == i;
            if at < hits@.len() {
                assert(hits@[at].index == i);
            } else {
                assert(comes_before(all[k], all[at]));
            }
        }
        assert forall|i: int|
            0 <= i < records.len() && search_score(#[trigger] records[i], wanted) > 0 && total
                <= SEARCH_LIMIT implies is_listed(hits@, i) by {
            assert(hits@ =~= all);
            assert(is_listed(all, i));
        }
        assert forall|j: int, k: int| 0 <= j < k < hits@.len() implies hits@[j].score
            >= hits@[k].score by {
            assert(comes_before(all[j], all[k]));
        }
    }
    SearchResults { hits, total }
}

/// A category and the number of its mods.
#[derive(Debug)]
pub struct CategoryCount {
    pub name: String,
    pub count: usize,
}

/// The mathematical value of a [`CategoryCount`].
pub struct CountView {
    pub name: Seq<char>,
    pub count: nat,
}

impl View for CategoryCount {
    type V = CountView;

    open spec fn view(&self) -> CountView {
        CountView { name: self.name@, count: self.count as nat }
    }
}

/// The values of the counts, in order.
pub open spec fn count_views(counts: Seq<CategoryCount>) -> Seq<CountView> {
    counts.map_values(|count: CategoryCount| count@)
}

/// The categories with the numbers of their mods, in order.
pub open spec fn category_counts(categories: Seq<CategoryView>) -> Seq<CountView> {
    categories.map_values(
        |category: CategoryView| CountView { name: category.name, count: category.mods.len() },
    )
}

/// The categories of the catalog with the numbers of their mods.
pub fn list_categories(db: &ModDatabase) -> (out: Vec<CategoryCount>)
    ensures
        count_views(out@) == category_counts(db@.categories),
{
    let categories = db.categories();
    let mut out: Vec<CategoryCount> = Vec::new();
    let mut i: usize = 0;
    while i < categories.len()
        invariant
            i <= categories.len(),
            out.len() == i,
            forall|j: int|
                0 <= j < i ==> (#[trigger] out@[j])@ == (CountView {
                    name: categories@[j]@.name,
                    count: categories@[j]@.mods.len(),
                }),
        decreases categories.len() - i,
    {
        out.push(
            CategoryCount { name: categories[i].name.clone(), count: categories[i].mods.len() },
        );
        i += 1;
    }
    proof {
        assert(count_views(out@) =~= category_counts(category_views(categories@)));
    }
    out
}

/// The records of the names `names`, in order; a name without a record is
/// passed over.
pub open spec fn listed_records(mods: Seq<ModInfoView>, names: Seq<Seq<char>>) -> Seq<ModInfoView>
    decreases names.len(),
{
    if names.len() == 0 {
        Seq::empty()
    } else {
        let before = listed_records(mods, names.drop_last());
        if has_mod(mods, names.last()) {
            before.push(mods[mod_position(mods, names.last())])
        } else {
            before
        }
    }
}

/// Where every name is filed under `category`, every name has its record,
/// and every record that is listed names `category` as its own.
pub proof fn lemma_listed_records(
    mods: Seq<ModInfoView>,
    names: Seq<Seq<char>>,
    category: Seq<char>,
)
    requires
        distinct_mods(mods),
        forall|k: int| 0 <= k < names.len() ==> is_filed(mods, #[trigger] names[k], category),
    ensures
        listed_records(mods, names).len() == names.len(),
        forall|i: int|
            0 <= i < names.len() ==> (#[trigger] listed_records(mods, names)[i]).category
                == category && listed_records(mods, names)[i].name == names[i],
    decreases names.len(),
{
    if names.len() > 0 {
        let front = names.drop_last();
        assert forall|k: int| 0 <= k < front.len() implies is_filed(
            mods,
            #[trigger] front[k],
            category,
        ) by {
            assert(front[k] == names[k]);
        }
        lemma_listed_records(mods, front, category);
        assert(is_filed(mods, names[names.len() - 1], category));
    }
}

/// What browsing answers.
#[derive(Debug)]
pub enum Browse {
    /// The records of the mods of the category that was asked for.
    Category { name: String, mods: Vec<ModInfo> },
    /// There is no such category; these are the categories there are.
    UnknownCategory { name: String, available: Vec<CategoryCount> },
    /// No category was asked for: the number of all mods, and the
    /// categories.
    Summary { total: usize, categories: Vec<CategoryCount> },
}

/// The mathematical value of a [`Browse`].
pub enum BrowseView {
    Category { name: Seq<char>, mods: Seq<ModInfoView> },
    UnknownCategory { name: Seq<char>, available: Seq<CountView> },
    Summary { total: nat, categories: Seq<CountView> },
}

impl View for Browse {
    type V = BrowseView;

    open spec fn view(&self) -> BrowseView {
        match *self {
            Browse::Category { name, mods } => BrowseView::Category {
                name: name@,
                mods: mod_views(mods@),
            },
            Browse::UnknownCategory { name, available } => BrowseView::UnknownCategory {
                name: name@,
                available: count_views(available@),
            },
            Browse::Summary { total, categories } => BrowseView::Summary {
                total: total as nat,
                categories: count_views(categories@),
            },
        }
    }
}

/// What browsing the catalog answers for `category`.
pub open spec fn browsed(db: DatabaseView, category: Option<Seq<char>>) -> BrowseView {
    match category {
        Some(name) => if has_category(db.categories, name) {
            BrowseView::Category {
                name,
                mods: listed_records(
                    db.mods,
                    db.categories[category_position(db.categories, name)].mods,
                ),
            }
        } else {
            BrowseView::UnknownCategory { name, available: category_counts(db.categories) }
        },
        None => BrowseView::Summary {
            total: db.mods.len(),
            categories: category_counts(db.categories),
        },
    }
}

/// In a catalog whose index agrees with its records, browsing a category
/// answers with one record for each name of the category, and each of
/// these records names the category as its own.
pub proof fn lemma_browse_stays_in_category(db: DatabaseView, name: Seq<char>)
    requires
        db.wf(),
        db.consistent(),
        has_category(db.categories, name),
    ensures
        browsed(db, Some(name)) matches BrowseView::Category { mods, .. } && mods.len()
            == db.categories[category_position(db.categories, name)].mods.len() && forall|i: int|
            0 <= i < mods.len() ==> (#[trigger] mods[i]).category == name,
{
    let at = category_position(db.categories, name);
    let names = db.categories[at].mods;
    assert forall|k: int| 0 <= k < names.len() implies is_filed(
        db.mods,
        #[trigger] names[k],
        name,
    ) by {
        assert(is_filed(db.mods, db.categories[at].mods[k], db.categories[at].name));
    }
    lemma_listed_records(db.mods, names, name);
}

/// Browses the catalog: the records of one category, or the categories
/// there are.
pub fn browse_mods(db: &ModDatabase, category: Option<&str>) -> (out: Browse)
    ensures
        out@ == browsed(
            db@,
            match category {
                Some(name) => Some(name@),
                None => None,
            },
        ),
        db@.consistent() ==> (out matches Browse::Category { name, mods } ==> forall|i: int|
            0 <= i < mods@.len() ==> (#[trigger] mods@[i])@.category == name@),
{
    match category {
        Some(name) => match db.find_category(name) {
            Some(at) => {
                let names = &db.categories()[at].mods;
                let ghost records = db@.mods;
                let mut mods: Vec<ModInfo> = Vec::new();
                let mut k: usize = 0;
                proof {
                    assert(names.deep_view().take(0) =~= Seq::<Seq<char>>::empty());
                    assert(mod_views(mods@) =~= Seq::<ModInfoView>::empty());
                }
                while k < names.len()
                    invariant
                        k <= names.len(),
                        records == db@.mods,
                        mod_views(mods@) == listed_records(
                            records,
                            names.deep_view().take(k as int),
                        ),
                    decreases names.len() - k,
                {
                    let ghost before = mod_views(mods@);
                    proof {
                        assert(names.deep_view().take(k + 1).drop_last() =~= names.deep_view().take(
                            k as int,
                        ));
                        assert(names.deep_view().take(k + 1).last() == names@[k as int]@);
                    }
                    if let Some(item) = db.get(names[k].as_str()) {
                        let copy = item.clone();
                        mods.push(copy);
                        proof {
                            assert(mod_views(mods@) =~= before.push(copy@));
                        }
                    }
                    k += 1;
                }
                proof {
                    assert(names.deep_view().take(names.len() as int) =~= names.deep_view());
                    if db@.consistent() {
                        lemma_browse_stays_in_category(db@, name@);
                        assert forall|i: int| 0 <= i < mods@.len() implies (
                        #[trigger] mods@[i])@.category == name@ by {
                            assert(mod_views(mods@)[i] == mods@[i]@);
                        }
                    }
                }
                Browse::Category { name: name.to_owned(), mods }
            },
            None => Browse::UnknownCategory {
                name: name.to_owned(),
                available: list_categories(db),
            },
        },
        None => Browse::Summary { total: db.mods().len(), categories: list_categories(db) },
    }
}

/// The name of the record is `name`, whatever the case of either.
pub open spec fn is_named(item: ModInfoView, name: Seq<char>) -> bool {
    lowercase(item.name) == lowercase(name)
}

/// The record at `at` is the first that is named `name`.
pub open spec fn is_first_named(mods: Seq<ModInfoView>, name: Seq<char>, at: int) -> bool {
    &&& 0 <= at < mods.len()
    &&& is_named(mods[at], name)
    &&& forall|j: int| 0 <= j < at ==> !is_named(#[trigger] mods[j], name)
}

/// Looks a mod up by its name, whatever the case: the first record of that
/// name, or the failure that says that there is none.
pub fn show_mod_info<'a>(db: &'a ModDatabase, name: &str) -> (out: Result<&'a ModInfo, WikiError>)
    ensures
        match out {
            Ok(item) => exists|at: int|
                is_first_named(db@.mods, name@, at) && item@ == #[trigger] db@.mods[at],
            Err(error) => {
                &&& error matches WikiError::NotFound { name: missing } && missing@ == name@
                &&& forall|i: int|
                    0 <= i < db@.mods.len() ==> !is_named(#[trigger] db@.mods[i], name@)
            },
        },
{
    let wanted = lowercase_of(name);
    let mods = db.mods();
    let mut i: usize = 0;
    while i < mods.len()
        invariant
            i <= mods.len(),
            mod_views(mods@) == db@.mods,
            wanted@ == lowercase(name@),
            forall|j: int| 0 <= j < i ==> !is_named(#[trigger] db@.mods[j], name@),
        decreases mods.len() - i,
    {
        let lower = lowercase_of(mods[i].name.as_str());
        if same_text(lower.as_str(), wanted.as_str()) {
            proof {
                assert(db@.mods[i as int] == mods@[i as int]@);
                assert(is_first_named(db@.mods, name@, i as int));
            }
            return Ok(&mods[i]);
        }
        proof {
            assert(db@.mods[i as int] == mods@[i as int]@);
        }
        i += 1;
    }
    Err(WikiError::NotFound { name: name.to_owned() })
}

} // verus!
