//! The catalog: the record kept for each mod and the snapshot that holds
//! the records together with the index of categories.

use crate::freshness::{
    is_stale, needs_refresh, read_clock, read_rfc3339, rfc3339_instant, Timestamp,
};
use crate::text::same_text;
use vstd::prelude::*;

verus! {

/// What the catalog knows about one mod.
#[derive(Debug)]
pub struct ModInfo {
    pub name: String,
    pub description: String,
    pub author: Option<String>,
    pub version: Option<String>,
    pub github_url: Option<String>,
    pub wiki_url: String,
    pub category: String,
    pub dependencies: Vec<String>,
}

/// The mathematical value of a [`ModInfo`].
pub struct ModInfoView {
    pub name: Seq<char>,
    pub description: Seq<char>,
    pub author: Option<Seq<char>>,
    pub version: Option<Seq<char>>,
    pub github_url: Option<Seq<char>>,
    pub wiki_url: Seq<char>,
    pub category: Seq<char>,
    pub dependencies: Seq<Seq<char>>,
}

impl View for ModInfo {
    type V = ModInfoView;

    open spec fn view(&self) -> ModInfoView {
        ModInfoView {
            name: self.name@,
            description: self.description@,
            author: self.author.deep_view(),
            version: self.version.deep_view(),
            github_url: self.github_url.deep_view(),
            wiki_url: self.wiki_url@,
            category: self.category@,
            dependencies: self.dependencies.deep_view(),
        }
    }
}

/// A copy of an optional string.
pub fn copy_optional(value: &Option<String>) -> (out: Option<String>)
    ensures
        out.deep_view() == value.deep_view(),
{
    match value {
        Some(s) => Some(s.clone()),
        None => None,
    }
}

/// A copy of a list of strings.
pub fn copy_strings(values: &Vec<String>) -> (out: Vec<String>)
    ensures
        out.deep_view() == values.deep_view(),
{
    let mut out: Vec<String> = Vec::new();
    let mut i: usize = 0;
    while i < values.len()
        invariant
            i <= values.len(),
            out.deep_view() == values.deep_view().take(i as int),
        decreases values.len() - i,
    {
        let ghost before = out.deep_view();
        out.push(values[i].clone());
        proof {
            assert(out.deep_view() =~= before.push(values@[i as int]@));
            assert(values.deep_view().take(i + 1) =~= before.push(values@[i as int]@));
        }
        i += 1;
    }
    proof {
        assert(values.deep_view().take(values.len() as int) =~= values.deep_view());
    }
    out
}

impl Clone for ModInfo {
    fn clone(&self) -> (out: Self)
        ensures
            out@ == self@,
    {
        ModInfo {
            name: self.name.clone(),
            description: self.description.clone(),
            author: copy_optional(&self.author),
            version: copy_optional(&self.version),
            github_url: copy_optional(&self.github_url),
            wiki_url: self.wiki_url.clone(),
            category: self.category.clone(),
            dependencies: copy_strings(&self.dependencies),
        }
    }
}

/// The names of the mods that stand under one category.
#[derive(Debug)]
pub struct CategoryEntry {
    pub name: String,
    pub mods: Vec<String>,
}

/// The mathematical value of a [`CategoryEntry`].
pub struct CategoryView {
    pub name: Seq<char>,
    pub mods: Seq<Seq<char>>,
}

impl View for CategoryEntry {
    type V = CategoryView;

    open spec fn view(&self) -> CategoryView {
        CategoryView { name: self.name@, mods: self.mods.deep_view() }
    }
}

impl Clone for CategoryEntry {
    fn clone(&self) -> (out: Self)
        ensures
            out@ == self@,
    {
        CategoryEntry { name: self.name.clone(), mods: copy_strings(&self.mods) }
    }
}

/// The values of the records, in order.
pub open spec fn mod_views(mods: Seq<ModInfo>) -> Seq<ModInfoView> {
    mods.map_values(|item: ModInfo| item@)
}

/// The values of the category entries, in order.
pub open spec fn category_views(categories: Seq<CategoryEntry>) -> Seq<CategoryView> {
    categories.map_values(|entry: CategoryEntry| entry@)
}

/// No two records have the same name.
pub open spec fn distinct_mods(mods: Seq<ModInfoView>) -> bool {
    forall|i: int, j: int|
        0 <= i < mods.len() && 0 <= j < mods.len() && i != j ==> mods[i].name != mods[j].name
}

/// Every record has a name.
pub open spec fn named_mods(mods: Seq<ModInfoView>) -> bool {
    forall|i: int| 0 <= i < mods.len() ==> (#[trigger] mods[i]).name.len() > 0
}

/// No two categories have the same name.
pub open spec fn distinct_categories(categories: Seq<CategoryView>) -> bool {
    forall|i: int, j: int|
        0 <= i < categories.len() && 0 <= j < categories.len() && i != j ==> categories[i].name
            != categories[j].name
}

/// Some record has the name `name`.
pub open spec fn has_mod(mods: Seq<ModInfoView>, name: Seq<char>) -> bool {
    exists|i: int| 0 <= i < mods.len() && #[trigger] mods[i].name == name
}

/// Some record has the name `name` and names `category` as its category.
pub open spec fn is_filed(mods: Seq<ModInfoView>, name: Seq<char>, category: Seq<char>) -> bool {
    exists|i: int|
        0 <= i < mods.len() && (#[trigger] mods[i]).name == name && mods[i].category == category
}

/// The place of a record named `name`, where there is one.
pub open spec fn mod_position(mods: Seq<ModInfoView>, name: Seq<char>) -> int {
    choose|i: int| 0 <= i < mods.len() && #[trigger] mods[i].name == name
}

/// Some category has the name `name`.
pub open spec fn has_category(categories: Seq<CategoryView>, name: Seq<char>) -> bool {
    exists|i: int| 0 <= i < categories.len() && #[trigger] categories[i].name == name
}

/// The place of a category named `name`, where there is one.
pub open spec fn category_position(categories: Seq<CategoryView>, name: Seq<char>) -> int {
    choose|i: int| 0 <= i < categories.len() && #[trigger] categories[i].name == name
}

/// The records after `item` was put in: in the place of the record of the
/// same name, or at the end where there was none. A record without a name
/// is not taken.
pub open spec fn with_mod(mods: Seq<ModInfoView>, item: ModInfoView) -> Seq<ModInfoView> {
    if item.name.len() == 0 {
        mods
    } else if has_mod(mods, item.name) {
        mods.update(mod_position(mods, item.name), item)
    } else {
        mods.push(item)
    }
}

/// The categories after `entry` was put in: in the place of the category of
/// the same name, or at the end where there was none.
pub open spec fn with_category(categories: Seq<CategoryView>, entry: CategoryView) -> Seq<
    CategoryView,
> {
    if has_category(categories, entry.name) {
        categories.update(category_position(categories, entry.name), entry)
    } else {
        categories.push(entry)
    }
}

/// Putting a record in keeps the names distinct and present; a record with
/// a name is there afterwards, and so is every record that was there.
pub proof fn lemma_with_mod_keeps_keys(mods: Seq<ModInfoView>, item: ModInfoView)
    requires
        distinct_mods(mods),
        named_mods(mods),
    ensures
        distinct_mods(with_mod(mods, item)),
        named_mods(with_mod(mods, item)),
        item.name.len() > 0 ==> has_mod(with_mod(mods, item), item.name),
        forall|name: Seq<char>| has_mod(mods, name) ==> has_mod(with_mod(mods, item), name),
{
    let after = with_mod(mods, item);
    if item.name.len() == 0 {
    } else if has_mod(mods, item.name) {
        let at = mod_position(mods, item.name);
        assert(after[at].name == item.name);
        assert forall|name: Seq<char>| has_mod(mods, name) implies has_mod(after, name) by {
            let i = choose|i: int| 0 <= i < mods.len() && #[trigger] mods[i].name == name;
            assert(after[i].name == name);
        }
    } else {
        assert(after[mods.len() as int].name == item.name);
        assert forall|name: Seq<char>| has_mod(mods, name) implies has_mod(after, name) by {
            let i = choose|i: int| 0 <= i < mods.len() && #[trigger] mods[i].name == name;
            assert(after[i].name == name);
        }
    }
}

/// In a catalog whose keys are distinct and whose index agrees with its
/// records, no name stands under two categories.
pub proof fn lemma_one_category(db: DatabaseView, name: Seq<char>, first: int, second: int)
    requires
        db.wf(),
        db.consistent(),
        0 <= first < db.categories.len(),
        0 <= second < db.categories.len(),
        db.categories[first].mods.contains(name),
        db.categories[second].mods.contains(name),
    ensures
        first == second,
{
    let k1 = choose|k: int|
        0 <= k < db.categories[first].mods.len() && db.categories[first].mods[k] == name;
    let k2 = choose|k: int|
        0 <= k < db.categories[second].mods.len() && db.categories[second].mods[k] == name;
    assert(is_filed(db.mods, db.categories[first].mods[k1], db.categories[first].name));
    assert(is_filed(db.mods, db.categories[second].mods[k2], db.categories[second].name));
}

/// In a catalog whose keys are distinct and whose index agrees with its
/// records, the record of a name that stands under a category names that
/// category as its own.
pub proof fn lemma_indexed_record(db: DatabaseView, category: int, k: int)
    requires
        db.wf(),
        db.consistent(),
        0 <= category < db.categories.len(),
        0 <= k < db.categories[category].mods.len(),
    ensures
        has_mod(db.mods, db.categories[category].mods[k]),
        db.mods[mod_position(db.mods, db.categories[category].mods[k])].category
            == db.categories[category].name,
{
    assert(is_filed(db.mods, db.categories[category].mods[k], db.categories[category].name));
}

/// The records that remain when `items` are put in one after another.
pub open spec fn keyed_mods(items: Seq<ModInfoView>) -> Seq<ModInfoView>
    decreases items.len(),
{
    if items.len() == 0 {
        Seq::empty()
    } else {
        with_mod(keyed_mods(items.drop_last()), items.last())
    }
}

/// The categories that remain when `entries` are put in one after another.
pub open spec fn keyed_categories(entries: Seq<CategoryView>) -> Seq<CategoryView>
    decreases entries.len(),
{
    if entries.len() == 0 {
        Seq::empty()
    } else {
        with_category(keyed_categories(entries.drop_last()), entries.last())
    }
}

/// The point in time that the stored text `text` stands for, where
/// it can be read.
pub open spec fn stored_time(text: Seq<char>) -> Option<Timestamp> {
    match rfc3339_instant(text) {
        Some((seconds, nanos)) => Some(Timestamp { seconds: seconds as i64, nanos: nanos as u32 }),
        None => None,
    }
}

/// The mathematical value of a [`ModDatabase`].
pub struct DatabaseView {
    pub mods: Seq<ModInfoView>,
    pub categories: Seq<CategoryView>,
    pub last_updated: Seq<char>,
}

impl DatabaseView {
    /// Names are keys: every record has one, and no two records and no two
    /// categories share one.
    pub open spec fn wf(self) -> bool {
        &&& named_mods(self.mods)
        &&& distinct_mods(self.mods)
        &&& distinct_categories(self.categories)
    }

    /// The index agrees with the records: every name that stands under a
    /// category is the name of a record, and that record names this
    /// category as its own.
    pub open spec fn consistent(self) -> bool {
        forall|c: int, k: int|
            0 <= c < self.categories.len() && 0 <= k < self.categories[c].mods.len() ==> is_filed(
                self.mods,
                #[trigger] self.categories[c].mods[k],
                self.categories[c].name,
            )
    }
}

/// A snapshot of the catalog: the records by name, the names by category,
/// and the time at which it was fetched.
#[derive(Debug)]
pub struct ModDatabase {
    mods: Vec<ModInfo>,
    categories: Vec<CategoryEntry>,
    last_updated: String,
}

impl View for ModDatabase {
    type V = DatabaseView;

    closed spec fn view(&self) -> DatabaseView {
        DatabaseView {
            mods: mod_views(self.mods@),
            categories: category_views(self.categories@),
            last_updated: self.last_updated@,
        }
    }
}

impl ModDatabase {
    #[verifier::type_invariant]
    closed spec fn keys_are_distinct(&self) -> bool {
        self@.wf()
    }

    /// A catalog without records and categories, fetched at `last_updated`.
    pub fn empty(last_updated: String) -> (out: Self)
        ensures
            out@.mods == Seq::<ModInfoView>::empty(),
            out@.categories == Seq::<CategoryView>::empty(),
            out@.last_updated == last_updated@,
            out@.wf(),
    {
        let out = ModDatabase { mods: Vec::new(), categories: Vec::new(), last_updated };
        proof {
            assert(out@.mods =~= Seq::<ModInfoView>::empty());
            assert(out@.categories =~= Seq::<CategoryView>::empty());
        }
        out
    }

    /// A catalog without records and categories, fetched at this moment:
    /// its time stamp is the text that stands for a point in time, the one
    /// that the clock shows.
    pub fn new() -> (out: Self)
        ensures
            out@.mods == Seq::<ModInfoView>::empty(),
            out@.categories == Seq::<CategoryView>::empty(),
            exists|at: Timestamp| out@.last_updated == #[trigger] at.stamp(),
            out@.wf(),
    {
        let now = read_clock();
        proof {
            assert(now.text@ == now.at.stamp());
        }
        ModDatabase::empty(now.text)
    }

    /// A catalog of the given records and categories, put in one after
    /// another, so that of two with the same name the later one stays.
    pub fn from_parts(
        mods: &Vec<ModInfo>,
        categories: &Vec<CategoryEntry>,
        last_updated: String,
    ) -> (out: Self)
        ensures
            out@.mods == keyed_mods(mod_views(mods@)),
            out@.categories == keyed_categories(category_views(categories@)),
            out@.last_updated == last_updated@,
            out@.wf(),
    {
        let mut out = ModDatabase::empty(last_updated);
        let mut i: usize = 0;
        proof {
            assert(mod_views(mods@).take(0) =~= Seq::<ModInfoView>::empty());
        }
        while i < mods.len()
            invariant
                i <= mods.len(),
                out@.mods == keyed_mods(mod_views(mods@).take(i as int)),
                out@.categories == Seq::<CategoryView>::empty(),
                out@.last_updated == last_updated@,
            decreases mods.len() - i,
        {
            proof {
                assert(mod_views(mods@).take(i + 1).drop_last() =~= mod_views(mods@).take(
                    i as int,
                ));
            }
            out = out.with_mod(mods[i].clone());
            i += 1;
        }
        let mut k: usize = 0;
        proof {
            assert(mod_views(mods@).take(mods.len() as int) =~= mod_views(mods@));
            assert(category_views(categories@).take(0) =~= Seq::<CategoryView>::empty());
        }
        while k < categories.len()
            invariant
                k <= categories.len(),
                out@.mods == keyed_mods(mod_views(mods@)),
                out@.categories == keyed_categories(category_views(categories@).take(k as int)),
                out@.last_updated == last_updated@,
            decreases categories.len() - k,
        {
            proof {
                assert(category_views(categories@).take(k + 1).drop_last() =~= category_views(
                    categories@,
                ).take(k as int));
            }
            out = out.with_category(categories[k].clone());
            k += 1;
        }
        proof {
            assert(category_views(categories@).take(categories.len() as int) =~= category_views(
                categories@,
            ));
            use_type_invariant(&out);
        }
        out
    }

    /// Whether the catalog has to be fetched again at `now`: it is empty, or
    /// its time stamp cannot be read, or it is 24 hours old or older.
    pub fn should_update_at(&self, now: Timestamp) -> (stale: bool)
        ensures
            stale == is_stale(self@.mods.len(), stored_time(self@.last_updated), now),
    {
        let fetched_at = read_rfc3339(self.last_updated.as_str());
        needs_refresh(self.mods.len(), fetched_at, now)
    }

    /// Whether the catalog has to be fetched again now. The clock decides
    /// for a catalog that has records and a time stamp that can be read.
    pub fn should_update(&self) -> (stale: bool)
        ensures
            self@.mods.len() == 0 ==> stale,
            stored_time(self@.last_updated) is None ==> stale,
            exists|now: Timestamp|
                stale == #[trigger] is_stale(
                    self@.mods.len(),
                    stored_time(self@.last_updated),
                    now,
                ),
    {
        let now = read_clock().at;
        self.should_update_at(now)
    }

    /// The records, in the order in which their names first came in.
    pub fn mods(&self) -> (out: &Vec<ModInfo>)
        ensures
            mod_views(out@) == self@.mods,
            self@.wf(),
    {
        proof {
            use_type_invariant(self);
        }
        &self.mods
    }

    /// The categories with the names of their mods.
    pub fn categories(&self) -> (out: &Vec<CategoryEntry>)
        ensures
            category_views(out@) == self@.categories,
            self@.wf(),
    {
        proof {
            use_type_invariant(self);
        }
        &self.categories
    }

    /// The place of the record named `name`.
    pub fn find(&self, name: &str) -> (out: Option<usize>)
        ensures
            out is Some == has_mod(self@.mods, name@),
            out matches Some(i) ==> i < self@.mods.len() && self@.mods[i as int].name == name@ && i
                == mod_position(self@.mods, name@),
    {
        proof {
            use_type_invariant(self);
        }
        let mut i: usize = 0;
        while i < self.mods.len()
            invariant
                i <= self.mods.len(),
                self@.wf(),
                forall|j: int| 0 <= j < i ==> (#[trigger] self@.mods[j]).name != name@,
            decreases self.mods.len() - i,
        {
            if same_text(self.mods[i].name.as_str(), name) {
                assert(self@.mods[i as int].name == name@);
                return Some(i);
            }
            i += 1;
        }
        None
    }

    /// The record named `name`.
    pub fn get(&self, name: &str) -> (out: Option<&ModInfo>)
        ensures
            out is Some == has_mod(self@.mods, name@),
            out matches Some(item) ==> item@ == self@.mods[mod_position(self@.mods, name@)]
                && item@.name == name@,
    {
        match self.find(name) {
            Some(i) => Some(&self.mods[i]),
            None => None,
        }
    }

    /// The catalog with `item` put in, in the place of the record of the
    /// same name if there is one, else at the end. A record without a name
    /// is not taken.
    pub fn with_mod(self, item: ModInfo) -> (out: Self)
        ensures
            out@.mods == with_mod(self@.mods, item@),
            out@.categories == self@.categories,
            out@.last_updated == self@.last_updated,
            out@.wf(),
    {
        proof {
            use_type_invariant(&self);
        }
        if item.name.as_str().is_empty() {
            return self;
        }
        let ghost before = self@.mods;
        let found = self.find(item.name.as_str());
        let ModDatabase { mut mods, categories, last_updated } = self;
        match found {
            Some(i) => {
                mods.set(i, item);
                proof {
                    assert(mod_views(mods@) =~= before.update(i as int, item@));
                }
            },
            None => {
                mods.push(item);
                proof {
                    assert(mod_views(mods@) =~= before.push(item@));
                }
            },
        }
        ModDatabase { mods, categories, last_updated }
    }

    /// The place of the category named `name`.
    pub fn find_category(&self, name: &str) -> (out: Option<usize>)
        ensures
            out is Some == has_category(self@.categories, name@),
            out matches Some(i) ==> i < self@.categories.len() && self@.categories[i as int].name
                == name@ && i == category_position(self@.categories, name@),
    {
        proof {
            use_type_invariant(self);
        }
        let mut i: usize = 0;
        while i < self.categories.len()
            invariant
                i <= self.categories.len(),
                self@.wf(),
                forall|j: int| 0 <= j < i ==> (#[trigger] self@.categories[j]).name != name@,
            decreases self.categories.len() - i,
        {
            if same_text(self.categories[i].name.as_str(), name) {
                assert(self@.categories[i as int].name == name@);
                return Some(i);
            }
            i += 1;
        }
        None
    }

    /// The catalog with the category `entry` put in, in the place of the
    /// category of the same name if there is one, else at the end.
    pub fn with_category(self, entry: CategoryEntry) -> (out: Self)
        ensures
            out@.categories == with_category(self@.categories, entry@),
            out@.mods == self@.mods,
            out@.last_updated == self@.last_updated,
            out@.wf(),
    {
        proof {
            use_type_invariant(&self);
        }
        let ghost before = self@.categories;
        let found = self.find_category(entry.name.as_str());
        let ModDatabase { mods, mut categories, last_updated } = self;
        match found {
            Some(i) => {
                categories.set(i, entry);
                proof {
                    assert(category_views(categories@) =~= before.update(i as int, entry@));
                }
            },
            None => {
                categories.push(entry);
                proof {
                    assert(category_views(categories@) =~= before.push(entry@));
                }
            },
        }
        ModDatabase { mods, categories, last_updated }
    }

    /// The time at which the catalog was fetched, as it is stored.
    pub fn last_updated(&self) -> (out: &String)
        ensures
            out@ == self@.last_updated,
    {
        &self.last_updated
    }
}

} // verus!
