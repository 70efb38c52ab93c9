//! The parts of a refresh: which categories to ask for, which pages to
//! fetch, and how the answers are merged into a new snapshot.

use crate::catalog::{
    category_position, distinct_categories, distinct_mods, has_category, has_mod, is_filed,
    lemma_one_category, lemma_with_mod_keeps_keys, mod_position, mod_views, named_mods, with_category,
    with_mod, CategoryEntry, CategoryView, DatabaseView, ModDatabase, ModInfo, ModInfoView,
};
use crate::text::same_text;
use vstd::prelude::*;

verus! {

/// A category of the wiki: the name under which it is shown and the key
/// under which the wiki lists its pages.
#[derive(Debug)]
pub struct CategoryDescriptor {
    pub name: String,
    pub key: String,
}

/// The mathematical value of a [`CategoryDescriptor`].
pub struct DescriptorView {
    pub name: Seq<char>,
    pub key: Seq<char>,
}

impl View for CategoryDescriptor {
    type V = DescriptorView;

    open spec fn view(&self) -> DescriptorView {
        DescriptorView { name: self.name@, key: self.key@ }
    }
}

/// The values of the descriptors, in order.
pub open spec fn descriptor_views(descriptors: Seq<CategoryDescriptor>) -> Seq<DescriptorView> {
    descriptors.map_values(|descriptor: CategoryDescriptor| descriptor@)
}

/// The six categories of the wiki.
pub open spec fn configured_categories() -> Seq<DescriptorView> {
    seq![
        DescriptorView { name: "Content Mods"@, key: "Content%20Mods"@ },
        DescriptorView { name: "Joker Mods"@, key: "Joker%20Mods"@ },
        DescriptorView { name: "Quality of Life Mods"@, key: "Quality%20of%20Life%20Mods"@ },
        DescriptorView { name: "Crossover Mods"@, key: "Crossover%20Mods"@ },
        DescriptorView { name: "Technical Mods"@, key: "Technical%20Mods"@ },
        DescriptorView { name: "API Mods"@, key: "API%20Mods"@ },
    ]
}

/// One descriptor.
fn descriptor(name: &str, key: &str) -> (out: CategoryDescriptor)
    ensures
        out@ == (DescriptorView { name: name@, key: key@ }),
{
    CategoryDescriptor { name: name.to_owned(), key: key.to_owned() }
}

/// The categories that a refresh asks for, in the order in which it asks.
pub fn category_descriptors() -> (out: Vec<CategoryDescriptor>)
    ensures
        descriptor_views(out@) == configured_categories(),
{
    let mut out: Vec<CategoryDescriptor> = Vec::new();
    out.push(descriptor("Content Mods", "Content%20Mods"));
    out.push(descriptor("Joker Mods", "Joker%20Mods"));
    out.push(descriptor("Quality of Life Mods", "Quality%20of%20Life%20Mods"));
    out.push(descriptor("Crossover Mods", "Crossover%20Mods"));
    out.push(descriptor("Technical Mods", "Technical%20Mods"));
    out.push(descriptor("API Mods", "API%20Mods"));
    proof {
        assert(descriptor_views(out@) =~= configured_categories());
    }
    out
}

/// The members that the wiki listed for one category.
#[derive(Debug)]
pub struct CategoryListing {
    pub category: String,
    pub members: Vec<String>,
}

/// The mathematical value of a [`CategoryListing`].
pub struct ListingView {
    pub category: Seq<char>,
    pub members: Seq<Seq<char>>,
}

impl View for CategoryListing {
    type V = ListingView;

    open spec fn view(&self) -> ListingView {
        ListingView { category: self.category@, members: self.members.deep_view() }
    }
}

/// The values of the listings, in order.
pub open spec fn listing_views(listings: Seq<CategoryListing>) -> Seq<ListingView> {
    listings.map_values(|listing: CategoryListing| listing@)
}

/// The category that a member name is filed under: that of the last
/// listing that has the name.
pub open spec fn owner(listings: Seq<ListingView>, name: Seq<char>) -> Option<Seq<char>>
    decreases listings.len(),
{
    if listings.len() == 0 {
        None
    } else if listings.last().members.contains(name) {
        Some(listings.last().category)
    } else {
        owner(listings.drop_last(), name)
    }
}

/// The member names of all listings, one listing after the other.
pub open spec fn all_members(listings: Seq<ListingView>) -> Seq<Seq<char>>
    decreases listings.len(),
{
    if listings.len() == 0 {
        Seq::empty()
    } else {
        all_members(listings.drop_last()) + listings.last().members
    }
}

/// The names without repetitions, each where it first stands.
pub open spec fn distinct(names: Seq<Seq<char>>) -> Seq<Seq<char>>
    decreases names.len(),
{
    if names.len() == 0 {
        Seq::empty()
    } else {
        let before = distinct(names.drop_last());
        if before.contains(names.last()) {
            before
        } else {
            before.push(names.last())
        }
    }
}

/// The pages to fetch: every listed name once.
pub open spec fn work_set(listings: Seq<ListingView>) -> Seq<Seq<char>> {
    distinct(all_members(listings))
}

/// Whether `name` is among `names`.
pub fn contains_name(names: &Vec<String>, name: &str) -> (found: bool)
    ensures
        found == names.deep_view().contains(name@),
{
    let mut i: usize = 0;
    while i < names.len()
        invariant
            i <= names.len(),
            forall|j: int| 0 <= j < i ==> names.deep_view()[j] != name@,
        decreases names.len() - i,
    {
        if same_text(names[i].as_str(), name) {
            assert(names.deep_view()[i as int] == name@);
            return true;
        }
        i += 1;
    }
    false
}

/// The category that `name` is filed under.
pub fn owner_of(listings: &Vec<CategoryListing>, name: &str) -> (out: Option<String>)
    ensures
        out.deep_view() == owner(listing_views(listings@), name@),
{
    let mut i: usize = listings.len();
    proof {
        assert(listing_views(listings@).take(i as int) =~= listing_views(listings@));
    }
    while i > 0
        invariant
            i <= listings.len(),
            owner(listing_views(listings@).take(i as int), name@) == owner(
                listing_views(listings@),
                name@,
            ),
        decreases i,
    {
        proof {
            assert(listing_views(listings@).take(i as int).drop_last() =~= listing_views(
                listings@,
            ).take(i - 1));
        }
        i -= 1;
        if contains_name(&listings[i].members, name) {
            return Some(listings[i].category.clone());
        }
    }
    None
}

/// The names without repetitions hold no name twice, and hold a name
/// exactly when the names hold it.
pub proof fn lemma_distinct(names: Seq<Seq<char>>)
    ensures
        distinct(names).no_duplicates(),
        forall|name: Seq<char>| distinct(names).contains(name) <==> names.contains(name),
    decreases names.len(),
{
    if names.len() > 0 {
        let front = names.drop_last();
        let last = names.last();
        lemma_distinct(front);
        let before = distinct(front);
        assert forall|name: Seq<char>| distinct(names).contains(name) <==> names.contains(
            name,
        ) by {
            if names.contains(name) {
                let i = choose|i: int| 0 <= i < names.len() && names[i] == name;
                if i < names.len() - 1 {
                    assert(front[i] == name);
                    assert(front.contains(name));
                    assert(before.contains(name));
                    let k = choose|k: int| 0 <= k < before.len() && before[k] == name;
                    assert(distinct(names)[k] == name);
                } else if !before.contains(last) {
                    assert(distinct(names)[before.len() as int] == name);
                }
            }
            if distinct(names).contains(name) {
                let k = choose|k: int| 0 <= k < distinct(names).len() && distinct(names)[k] == name;
                if k < before.len() {
                    assert(before[k] == name);
                    assert(front.contains(name));
                    let i = choose|i: int| 0 <= i < front.len() && front[i] == name;
                    assert(names[i] == name);
                } else {
                    assert(names[names.len() - 1] == name);
                }
            }
        }
    }
}

/// A name is among the members of all listings exactly when some listing
/// has it.
pub proof fn lemma_all_members(listings: Seq<ListingView>, name: Seq<char>)
    ensures
        all_members(listings).contains(name) <==> exists|i: int|
            0 <= i < listings.len() && (#[trigger] listings[i]).members.contains(name),
    decreases listings.len(),
{
    if listings.len() > 0 {
        let front = listings.drop_last();
        let last = listings.last();
        lemma_all_members(front, name);
        let all = all_members(listings);
        if all.contains(name) {
            let k = choose|k: int| 0 <= k < all.len() && all[k] == name;
            if k < all_members(front).len() {
                assert(all_members(front)[k] == name);
                let i = choose|i: int|
                    0 <= i < front.len() && (#[trigger] front[i]).members.contains(name);
                assert(listings[i].members.contains(name));
            } else {
                assert(last.members[k - all_members(front).len()] == name);
                assert(listings[listings.len() - 1].members.contains(name));
            }
        }
        if exists|i: int|
            0 <= i < listings.len() && (#[trigger] listings[i]).members.contains(name) {
            let i = choose|i: int|
                0 <= i < listings.len() && (#[trigger] listings[i]).members.contains(name);
            if i < listings.len() - 1 {
                assert(front[i].members.contains(name));
                let k = choose|k: int|
                    0 <= k < all_members(front).len() && all_members(front)[k] == name;
                assert(all[k] == name);
            } else {
                let k = choose|k: int| 0 <= k < last.members.len() && last.members[k] == name;
                assert(all[all_members(front).len() + k] == name);
            }
        }
    }
}

/// Every page is fetched once: the work set holds no name twice, and holds
/// exactly the names that some listing has.
pub proof fn lemma_work_set(listings: Seq<ListingView>)
    ensures
        work_set(listings).no_duplicates(),
        forall|name: Seq<char>|
            work_set(listings).contains(name) <==> exists|i: int|
                0 <= i < listings.len() && (#[trigger] listings[i]).members.contains(name),
{
    lemma_distinct(all_members(listings));
    assert forall|name: Seq<char>|
        work_set(listings).contains(name) <==> exists|i: int|
            0 <= i < listings.len() && (#[trigger] listings[i]).members.contains(name) by {
        lemma_all_members(listings, name);
    }
}

/// The pages to fetch for the listings: every listed name once, in the
/// order in which the names first stand.
pub fn collect_work(listings: &Vec<CategoryListing>) -> (out: Vec<String>)
    ensures
        out.deep_view() == work_set(listing_views(listings@)),
        out.deep_view().no_duplicates(),
{
    let ghost views = listing_views(listings@);
    let mut out: Vec<String> = Vec::new();
    let mut i: usize = 0;
    proof {
        assert(views.take(0) =~= Seq::<ListingView>::empty());
        assert(out.deep_view() =~= Seq::<Seq<char>>::empty());
    }
    while i < listings.len()
        invariant
            i <= listings.len(),
            views == listing_views(listings@),
            out.deep_view() == distinct(all_members(views.take(i as int))),
        decreases listings.len() - i,
    {
        let members = &listings[i].members;
        let ghost done = all_members(views.take(i as int));
        let mut k: usize = 0;
        proof {
            assert(members.deep_view().take(0) =~= Seq::<Seq<char>>::empty());
            assert(done + Seq::<Seq<char>>::empty() =~= done);
        }
        while k < members.len()
            invariant
                k <= members.len(),
                out.deep_view() == distinct(done + members.deep_view().take(k as int)),
            decreases members.len() - k,
        {
            let ghost before = out.deep_view();
            proof {
                let next = done + members.deep_view().take(k + 1);
                assert(next.drop_last() =~= done + members.deep_view().take(k as int));
                assert(next.last() == members@[k as int]@);
            }
            if !contains_name(&out, members[k].as_str()) {
                out.push(members[k].clone());
                proof {
                    assert(out.deep_view() =~= before.push(members@[k as int]@));
                }
            }
            k += 1;
        }
        proof {
            assert(members.deep_view().take(members.len() as int) =~= members.deep_view());
            assert(views.take(i + 1).drop_last() =~= views.take(i as int));
            assert(views.take(i + 1).last().members == members.deep_view());
        }
        i += 1;
    }
    proof {
        assert(views.take(listings.len() as int) =~= views);
        lemma_distinct(all_members(views));
    }
    out
}

/// What came of fetching and reading the page of one mod: the record, or
/// nothing where that failed.
#[derive(Debug)]
pub struct ItemOutcome {
    /// The name under which the page was asked for.
    pub name: String,
    pub item: Option<ModInfo>,
}

/// The mathematical value of an [`ItemOutcome`].
pub struct OutcomeView {
    pub name: Seq<char>,
    pub item: Option<ModInfoView>,
}

impl View for ItemOutcome {
    type V = OutcomeView;

    open spec fn view(&self) -> OutcomeView {
        OutcomeView {
            name: self.name@,
            item: match self.item {
                Some(item) => Some(item@),
                None => None,
            },
        }
    }
}

/// The values of the outcomes, in order.
pub open spec fn outcome_views(outcomes: Seq<ItemOutcome>) -> Seq<OutcomeView> {
    outcomes.map_values(|outcome: ItemOutcome| outcome@)
}

/// The record `item` filed under `category`.
pub open spec fn placed(item: ModInfoView, category: Seq<char>) -> ModInfoView {
    ModInfoView { category, ..item }
}

/// What one outcome gives to the catalog: its record, filed under the
/// category that owns the name it was asked for. A failed outcome gives
/// nothing, and neither does one whose name no listing has.
pub open spec fn contribution(listings: Seq<ListingView>, outcome: OutcomeView) -> Option<
    ModInfoView,
> {
    match (outcome.item, owner(listings, outcome.name)) {
        (Some(item), Some(category)) => Some(placed(item, category)),
        _ => None,
    }
}

/// The records of the merged catalog: what the outcomes give, put in one
/// after another.
pub open spec fn merged_mods(listings: Seq<ListingView>, outcomes: Seq<OutcomeView>) -> Seq<
    ModInfoView,
>
    decreases outcomes.len(),
{
    if outcomes.len() == 0 {
        Seq::empty()
    } else {
        let before = merged_mods(listings, outcomes.drop_last());
        match contribution(listings, outcomes.last()) {
            Some(item) => with_mod(before, item),
            None => before,
        }
    }
}

/// The names of the failed outcomes, in order.
pub open spec fn failed_names(outcomes: Seq<OutcomeView>) -> Seq<Seq<char>>
    decreases outcomes.len(),
{
    if outcomes.len() == 0 {
        Seq::empty()
    } else {
        let before = failed_names(outcomes.drop_last());
        if outcomes.last().item is None {
            before.push(outcomes.last().name)
        } else {
            before
        }
    }
}

/// The names of the records that are filed under `category`, in order.
pub open spec fn members_of(mods: Seq<ModInfoView>, category: Seq<char>) -> Seq<Seq<char>>
    decreases mods.len(),
{
    if mods.len() == 0 {
        Seq::empty()
    } else {
        let before = members_of(mods.drop_last(), category);
        if mods.last().category == category {
            before.push(mods.last().name)
        } else {
            before
        }
    }
}

/// The index of the categories named `names`, made from the records: each
/// category with the names of the records that are filed under it.
pub open spec fn index_of(mods: Seq<ModInfoView>, names: Seq<Seq<char>>) -> Seq<CategoryView>
    decreases names.len(),
{
    if names.len() == 0 {
        Seq::empty()
    } else {
        with_category(
            index_of(mods, names.drop_last()),
            CategoryView { name: names.last(), mods: members_of(mods, names.last()) },
        )
    }
}

/// Every name among the members of a category is the name of a record that
/// is filed under it.
pub proof fn lemma_members_of(mods: Seq<ModInfoView>, category: Seq<char>, k: int)
    requires
        0 <= k < members_of(mods, category).len(),
    ensures
        exists|i: int|
            0 <= i < mods.len() && (#[trigger] mods[i]).name == members_of(mods, category)[k]
                && mods[i].category == category,
    decreases mods.len(),
{
    let before = members_of(mods.drop_last(), category);
    if k < before.len() {
        lemma_members_of(mods.drop_last(), category, k);
        let i = choose|i: int|
            0 <= i < mods.drop_last().len() && (#[trigger] mods.drop_last()[i]).name == before[k]
                && mods.drop_last()[i].category == category;
        assert(mods[i].name == members_of(mods, category)[k]);
    } else {
        assert(mods[mods.len() - 1].name == members_of(mods, category)[k]);
    }
}

/// Every record that is filed under a category is among its members.
pub proof fn lemma_members_of_has(mods: Seq<ModInfoView>, category: Seq<char>, i: int)
    requires
        0 <= i < mods.len(),
        mods[i].category == category,
    ensures
        members_of(mods, category).contains(mods[i].name),
    decreases mods.len(),
{
    let before = members_of(mods.drop_last(), category);
    if i < mods.len() - 1 {
        lemma_members_of_has(mods.drop_last(), category, i);
        let k = choose|k: int| 0 <= k < before.len() && before[k] == mods[i].name;
        assert(members_of(mods, category)[k] == mods[i].name);
    } else {
        assert(members_of(mods, category)[before.len() as int] == mods[i].name);
    }
}

/// An index made from the records has no category twice, and each of its
/// categories holds the members that the records give it.
pub proof fn lemma_index_of(mods: Seq<ModInfoView>, names: Seq<Seq<char>>)
    ensures
        distinct_categories(index_of(mods, names)),
        forall|c: int|
            0 <= c < index_of(mods, names).len() ==> (#[trigger] index_of(mods, names)[c]).mods
                == members_of(mods, index_of(mods, names)[c].name),
        forall|name: Seq<char>| has_category(index_of(mods, names), name) <==> names.contains(name),
    decreases names.len(),
{
    if names.len() > 0 {
        let front = names.drop_last();
        let before = index_of(mods, front);
        let entry = CategoryView { name: names.last(), mods: members_of(mods, names.last()) };
        let after = index_of(mods, names);
        lemma_index_of(mods, front);
        assert forall|name: Seq<char>| has_category(after, name) <==> names.contains(name) by {
            if has_category(after, name) {
                let c = choose|c: int| 0 <= c < after.len() && #[trigger] after[c].name == name;
                if name != entry.name {
                    assert(before[c].name == name);
                    assert(has_category(before, name));
                    assert(front.contains(name));
                    let k = choose|k: int| 0 <= k < front.len() && front[k] == name;
                    assert(names[k] == name);
                } else {
                    assert(names[names.len() - 1] == name);
                }
            }
            if names.contains(name) {
                let k = choose|k: int| 0 <= k < names.len() && names[k] == name;
                if name == entry.name {
                    if has_category(before, entry.name) {
                        assert(after[category_position(before, entry.name)].name == name);
                    } else {
                        assert(after[before.len() as int].name == name);
                    }
                } else {
                    assert(front[k] == name);
                    assert(front.contains(name));
                    assert(has_category(before, name));
                    let c = choose|c: int|
                        0 <= c < before.len() && #[trigger] before[c].name == name;
                    assert(after[c].name == name);
                }
            }
        }
    }
}

/// A catalog whose index is made from its records is consistent.
pub proof fn lemma_index_is_consistent(
    mods: Seq<ModInfoView>,
    names: Seq<Seq<char>>,
    last_updated: Seq<char>,
)
    ensures
        (DatabaseView { mods, categories: index_of(mods, names), last_updated }).consistent(),
{
    let index = index_of(mods, names);
    let db = DatabaseView { mods, categories: index, last_updated };
    lemma_index_of(mods, names);
    assert forall|c: int, k: int|
        0 <= c < db.categories.len() && 0 <= k < db.categories[c].mods.len() implies is_filed(
        db.mods,
        #[trigger] db.categories[c].mods[k],
        db.categories[c].name,
    ) by {
        assert(index[c].mods == members_of(mods, index[c].name));
        lemma_members_of(mods, index[c].name, k);
    }
}

/// Every merged record has a name, and no two have the same.
pub proof fn lemma_merged_mods_are_keyed(listings: Seq<ListingView>, outcomes: Seq<OutcomeView>)
    ensures
        distinct_mods(merged_mods(listings, outcomes)),
        named_mods(merged_mods(listings, outcomes)),
    decreases outcomes.len(),
{
    if outcomes.len() > 0 {
        lemma_merged_mods_are_keyed(listings, outcomes.drop_last());
        match contribution(listings, outcomes.last()) {
            Some(item) => {
                lemma_with_mod_keeps_keys(merged_mods(listings, outcomes.drop_last()), item);
            },
            None => {},
        }
    }
}

/// Every merged record is what some outcome gave: the record of a page
/// that was read, filed under the category that owns the name the page was
/// asked for, which is the category of the last listing that has this name.
/// So a page that failed leaves no record.
pub proof fn lemma_merged_record_origin(
    listings: Seq<ListingView>,
    outcomes: Seq<OutcomeView>,
    i: int,
)
    requires
        0 <= i < merged_mods(listings, outcomes).len(),
    ensures
        exists|k: int|
            0 <= k < outcomes.len() && contribution(listings, #[trigger] outcomes[k]) == Some(
                merged_mods(listings, outcomes)[i],
            ),
    decreases outcomes.len(),
{
    let front = outcomes.drop_last();
    let before = merged_mods(listings, front);
    let taken_from_before = match contribution(listings, outcomes.last()) {
        Some(item) => if item.name.len() == 0 {
            true
        } else if has_mod(before, item.name) {
            i != mod_position(before, item.name)
        } else {
            i < before.len()
        },
        None => true,
    };
    if taken_from_before {
        lemma_merged_record_origin(listings, front, i);
        let k = choose|k: int|
            0 <= k < front.len() && contribution(listings, #[trigger] front[k]) == Some(before[i]);
        assert(contribution(listings, outcomes[k]) == Some(merged_mods(listings, outcomes)[i]));
    } else {
        assert(contribution(listings, outcomes[outcomes.len() - 1]) == Some(
            merged_mods(listings, outcomes)[i],
        ));
    }
}

/// What an outcome gives is in the merged records under its name, if it
/// has one.
pub proof fn lemma_merged_has_contribution(
    listings: Seq<ListingView>,
    outcomes: Seq<OutcomeView>,
    k: int,
)
    requires
        0 <= k < outcomes.len(),
        contribution(listings, outcomes[k]) is Some,
        contribution(listings, outcomes[k])->0.name.len() > 0,
    ensures
        has_mod(merged_mods(listings, outcomes), contribution(listings, outcomes[k])->0.name),
    decreases outcomes.len(),
{
    let front = outcomes.drop_last();
    let before = merged_mods(listings, front);
    lemma_merged_mods_are_keyed(listings, front);
    if k < outcomes.len() - 1 {
        lemma_merged_has_contribution(listings, front, k);
        assert(front[k] == outcomes[k]);
        match contribution(listings, outcomes.last()) {
            Some(item) => {
                lemma_with_mod_keeps_keys(before, item);
            },
            None => {},
        }
    } else {
        lemma_with_mod_keeps_keys(before, contribution(listings, outcomes[k])->0);
    }
}

/// The snapshot that a merge makes.
pub open spec fn merged(
    categories: Seq<Seq<char>>,
    listings: Seq<ListingView>,
    outcomes: Seq<OutcomeView>,
    last_updated: Seq<char>,
) -> DatabaseView {
    DatabaseView {
        mods: merged_mods(listings, outcomes),
        categories: index_of(merged_mods(listings, outcomes), categories),
        last_updated,
    }
}

/// In a merged snapshot a name stands under one category at most, however
/// many listings have it.
pub proof fn lemma_merged_name_has_one_category(
    categories: Seq<Seq<char>>,
    listings: Seq<ListingView>,
    outcomes: Seq<OutcomeView>,
    last_updated: Seq<char>,
    name: Seq<char>,
    first: int,
    second: int,
)
    requires
        0 <= first < merged(categories, listings, outcomes, last_updated).categories.len(),
        0 <= second < merged(categories, listings, outcomes, last_updated).categories.len(),
        merged(categories, listings, outcomes, last_updated).categories[first].mods.contains(name),
        merged(categories, listings, outcomes, last_updated).categories[second].mods.contains(name),
    ensures
        first == second,
{
    let db = merged(categories, listings, outcomes, last_updated);
    lemma_merged_mods_are_keyed(listings, outcomes);
    lemma_index_of(db.mods, categories);
    lemma_index_is_consistent(db.mods, categories, last_updated);
    lemma_one_category(db, name, first, second);
}

/// In a merged snapshot every record that is filed under one of the
/// categories asked for stands under that category in the index.
pub proof fn lemma_merged_index_is_complete(
    categories: Seq<Seq<char>>,
    listings: Seq<ListingView>,
    outcomes: Seq<OutcomeView>,
    last_updated: Seq<char>,
    i: int,
)
    requires
        0 <= i < merged(categories, listings, outcomes, last_updated).mods.len(),
        categories.contains(merged(categories, listings, outcomes, last_updated).mods[i].category),
    ensures
        ({
            let db = merged(categories, listings, outcomes, last_updated);
            &&& has_category(db.categories, db.mods[i].category)
            &&& db.categories[category_position(
                db.categories,
                db.mods[i].category,
            )].mods.contains(db.mods[i].name)
        }),
{
    let db = merged(categories, listings, outcomes, last_updated);
    lemma_index_of(db.mods, categories);
    lemma_members_of_has(db.mods, db.mods[i].category, i);
}

/// A new snapshot and the names of the pages that gave nothing to it.
#[derive(Debug)]
pub struct MergeResult {
    pub database: ModDatabase,
    pub failed: Vec<String>,
}

/// The names of the records that are filed under `category`.
pub fn members_in(mods: &Vec<ModInfo>, category: &str) -> (out: Vec<String>)
    ensures
        out.deep_view() == members_of(mod_views(mods@), category@),
{
    let ghost views = mod_views(mods@);
    let mut out: Vec<String> = Vec::new();
    let mut i: usize = 0;
    proof {
        assert(views.take(0) =~= Seq::<ModInfoView>::empty());
        assert(out.deep_view() =~= Seq::<Seq<char>>::empty());
    }
    while i < mods.len()
        invariant
            i <= mods.len(),
            views == mod_views(mods@),
            out.deep_view() == members_of(views.take(i as int), category@),
        decreases mods.len() - i,
    {
        let ghost before = out.deep_view();
        proof {
            assert(views.take(i + 1).drop_last() =~= views.take(i as int));
            assert(views.take(i + 1).last() == mods@[i as int]@);
        }
        if same_text(mods[i].category.as_str(), category) {
            out.push(mods[i].name.clone());
            proof {
                assert(out.deep_view() =~= before.push(mods@[i as int]@.name));
            }
        }
        i += 1;
    }
    proof {
        assert(views.take(mods.len() as int) =~= views);
    }
    out
}

/// Merges what was fetched into a new snapshot. Each record is filed
/// under the category of the last listing that has the name it was asked
/// for; of two records with one name the later one stays; a failed page
/// gives no record, and its name is handed back. The index is made anew
/// from the records, for the categories named `categories`.
pub fn merge(
    categories: &Vec<String>,
    listings: &Vec<CategoryListing>,
    outcomes: &Vec<ItemOutcome>,
    last_updated: String,
) -> (out: MergeResult)
    ensures
        out.database@ == merged(
            categories.deep_view(),
            listing_views(listings@),
            outcome_views(outcomes@),
            last_updated@,
        ),
        out.failed.deep_view() == failed_names(outcome_views(outcomes@)),
        out.database@.wf(),
        out.database@.consistent(),
{
    let ghost lists = listing_views(listings@);
    let ghost results = outcome_views(outcomes@);
    let mut database = ModDatabase::empty(last_updated);
    let mut failed: Vec<String> = Vec::new();
    let mut i: usize = 0;
    proof {
        assert(results.take(0) =~= Seq::<OutcomeView>::empty());
        assert(failed.deep_view() =~= Seq::<Seq<char>>::empty());
    }
    while i < outcomes.len()
        invariant
            i <= outcomes.len(),
            lists == listing_views(listings@),
            results == outcome_views(outcomes@),
            database@.mods == merged_mods(lists, results.take(i as int)),
            database@.categories == Seq::<CategoryView>::empty(),
            database@.last_updated == last_updated@,
            database@.wf(),
            failed.deep_view() == failed_names(results.take(i as int)),
        decreases outcomes.len() - i,
    {
        let ghost failed_before = failed.deep_view();
        proof {
            assert(results.take(i + 1).drop_last() =~= results.take(i as int));
            assert(results.take(i + 1).last() == outcomes@[i as int]@);
        }
        match &outcomes[i].item {
            Some(item) => {
                match owner_of(listings, outcomes[i].name.as_str()) {
                    Some(category) => {
                        let mut filed = item.clone();
                        filed.category = category;
                        proof {
                            assert(filed@ == placed(item@, category@));
                        }
                        database = database.with_mod(filed);
                    },
                    None => {},
                }
            },
            None => {
                failed.push(outcomes[i].name.clone());
                proof {
                    assert(failed.deep_view() =~= failed_before.push(outcomes@[i as int]@.name));
                }
            },
        }
        i += 1;
    }
    proof {
        assert(results.take(outcomes.len() as int) =~= results);
    }
    let ghost merged = database@.mods;
    let mut k: usize = 0;
    proof {
        assert(categories.deep_view().take(0) =~= Seq::<Seq<char>>::empty());
    }
    while k < categories.len()
        invariant
            k <= categories.len(),
            database@.mods == merged,
            database@.categories == index_of(merged, categories.deep_view().take(k as int)),
            database@.last_updated == last_updated@,
            database@.wf(),
        decreases categories.len() - k,
    {
        proof {
            assert(categories.deep_view().take(k + 1).drop_last() =~= categories.deep_view().take(
                k as int,
            ));
            assert(categories.deep_view().take(k + 1).last() == categories@[k as int]@);
        }
        let members = members_in(database.mods(), categories[k].as_str());
        database = database.with_category(
            CategoryEntry { name: categories[k].clone(), mods: members },
        );
        k += 1;
    }
    proof {
        assert(categories.deep_view().take(categories.len() as int) =~= categories.deep_view());
        lemma_index_is_consistent(merged, categories.deep_view(), last_updated@);
        assert(database@ == (DatabaseView {
            mods: merged,
            categories: index_of(merged, categories.deep_view()),
            last_updated: last_updated@,
        }));
    }
    MergeResult { database, failed }
}

} // verus!
