//! The steps of a refresh. The machine decides what is to be fetched next
//! and what becomes of each answer; whoever drives it does the fetching and
//! hands the answers back as events.

use crate::catalog::DatabaseView;
use crate::freshness::{read_clock, Timestamp};
use crate::refresh::{
    category_descriptors, collect_work, configured_categories, contains_name, descriptor_views,
    failed_names, lemma_index_is_consistent, lemma_index_of, lemma_merged_mods_are_keyed,
    listing_views, merge, merged, outcome_views, work_set, CategoryDescriptor,
    CategoryListing, DescriptorView, ItemOutcome, ListingView, MergeResult, OutcomeView,
};
use crate::text::same_text;
use vstd::prelude::*;

verus! {

/// Where a refresh stands.
#[derive(Clone, Copy, Debug, PartialEq, Eq, Structural)]
pub enum Phase {
    /// Nothing was asked for yet.
    Idle,
    /// The categories are asked for their members, one after the other.
    CollectingCategories,
    /// The pages of the members are fetched.
    FetchingItems,
    /// All pages have reported; the answers wait to be merged.
    Merging,
    /// The new snapshot was handed out.
    Done,
}

/// What happened outside.
#[derive(Debug)]
pub enum Event {
    /// The refresh is to begin.
    Start,
    /// The category that was asked for answered with these members, or
    /// could not be listed.
    CategoryListed(Option<Vec<String>>),
    /// The page of one mod was fetched and read, or failed.
    ItemFetched(ItemOutcome),
    /// The answers are to be merged.
    Merge,
}

/// The mathematical value of an [`Event`].
pub enum EventView {
    Start,
    CategoryListed(Option<Seq<Seq<char>>>),
    ItemFetched(OutcomeView),
    Merge,
}

impl View for Event {
    type V = EventView;

    open spec fn view(&self) -> EventView {
        match *self {
            Event::Start => EventView::Start,
            Event::CategoryListed(members) => EventView::CategoryListed(members.deep_view()),
            Event::ItemFetched(outcome) => EventView::ItemFetched(outcome@),
            Event::Merge => EventView::Merge,
        }
    }
}

/// What is to be done outside.
#[derive(Debug)]
pub enum Action {
    /// Ask the wiki for the members of this category and report them with
    /// [`Event::CategoryListed`].
    FetchCategory { name: String, key: String },
    /// Fetch the pages of these mods, in any order and all at once if that
    /// suits, and report each with [`Event::ItemFetched`].
    FetchItems { names: Vec<String> },
    /// Go on reporting pages.
    Wait,
    /// All pages are in: send [`Event::Merge`].
    Merge,
    /// The refresh is done: here is the new snapshot.
    Finish(MergeResult),
    /// The event does not fit the phase; nothing has changed.
    Rejected,
}

/// The mathematical value of an [`Action`].
pub enum ActionView {
    FetchCategory { name: Seq<char>, key: Seq<char> },
    FetchItems { names: Seq<Seq<char>> },
    Wait,
    Merge,
    Finish { database: DatabaseView, failed: Seq<Seq<char>> },
    Rejected,
}

impl View for Action {
    type V = ActionView;

    open spec fn view(&self) -> ActionView {
        match *self {
            Action::FetchCategory { name, key } => ActionView::FetchCategory {
                name: name@,
                key: key@,
            },
            Action::FetchItems { names } => ActionView::FetchItems { names: names.deep_view() },
            Action::Wait => ActionView::Wait,
            Action::Merge => ActionView::Merge,
            Action::Finish(result) => ActionView::Finish {
                database: result.database@,
                failed: result.failed.deep_view(),
            },
            Action::Rejected => ActionView::Rejected,
        }
    }
}

/// The mathematical value of a [`Refresh`].
pub struct RefreshView {
    pub phase: Phase,
    pub descriptors: Seq<DescriptorView>,
    pub listings: Seq<ListingView>,
    pub work: Seq<Seq<char>>,
    pub outcomes: Seq<OutcomeView>,
    pub stamp: Seq<char>,
}

/// Some outcome was reported for the page `name`.
pub open spec fn is_reported(outcomes: Seq<OutcomeView>, name: Seq<char>) -> bool {
    exists|k: int| 0 <= k < outcomes.len() && (#[trigger] outcomes[k]).name == name
}

/// The names of the descriptors, in order.
pub open spec fn descriptor_names(descriptors: Seq<DescriptorView>) -> Seq<Seq<char>> {
    descriptors.map_values(|descriptor: DescriptorView| descriptor.name)
}

/// The members that an answer brought: none where the category could not
/// be listed.
pub open spec fn answered(answer: Option<Seq<Seq<char>>>) -> Seq<Seq<char>> {
    match answer {
        Some(members) => members,
        None => Seq::empty(),
    }
}

impl RefreshView {
    /// What holds of a refresh in each phase: before the pages are fetched
    /// nothing was reported; the categories are listed in the order of
    /// their descriptors; once they are all listed, the work is every
    /// listed name once; only pages of the work report, each once.
    pub open spec fn wf(self) -> bool {
        &&& self.listings.len() <= self.descriptors.len()
        &&& forall|i: int|
            0 <= i < self.listings.len() ==> (#[trigger] self.listings[i]).category
                == self.descriptors[i].name
        &&& forall|k: int|
            0 <= k < self.outcomes.len() ==> self.work.contains((#[trigger] self.outcomes[k]).name)
        &&& forall|j: int, k: int|
            0 <= j < self.outcomes.len() && 0 <= k < self.outcomes.len() && j != k
                ==> self.outcomes[j].name != self.outcomes[k].name
        &&& match self.phase {
            Phase::Idle => self.listings.len() == 0 && self.work.len() == 0 && self.outcomes.len()
                == 0,
            Phase::CollectingCategories => self.listings.len() < self.descriptors.len()
                && self.work.len() == 0 && self.outcomes.len() == 0,
            Phase::FetchingItems => self.listings.len() == self.descriptors.len() && self.work
                == work_set(self.listings) && self.outcomes.len() < self.work.len(),
            Phase::Merging => self.listings.len() == self.descriptors.len() && self.work
                == work_set(self.listings) && self.outcomes.len() >= self.work.len(),
            Phase::Done => true,
        }
    }

    /// The state after the next category was listed.
    pub open spec fn after_listing(self, members: Seq<Seq<char>>) -> RefreshView {
        let listing = ListingView {
            category: self.descriptors[self.listings.len() as int].name,
            members,
        };
        let listings = self.listings.push(listing);
        if listings.len() < self.descriptors.len() {
            RefreshView { listings, ..self }
        } else {
            let work = work_set(listings);
            RefreshView {
                phase: if work.len() == 0 {
                    Phase::Merging
                } else {
                    Phase::FetchingItems
                },
                listings,
                work,
                ..self
            }
        }
    }

    /// Whether the outcome is taken: its page is part of the work and has
    /// not reported before.
    pub open spec fn accepts(self, outcome: OutcomeView) -> bool {
        self.work.contains(outcome.name) && !is_reported(self.outcomes, outcome.name)
    }

    /// The state after the page of one mod reported.
    pub open spec fn after_outcome(self, outcome: OutcomeView) -> RefreshView {
        let outcomes = self.outcomes.push(outcome);
        RefreshView {
            phase: if outcomes.len() >= self.work.len() {
                Phase::Merging
            } else {
                Phase::FetchingItems
            },
            outcomes,
            ..self
        }
    }

    /// The state that follows on `event`.
    pub open spec fn stepped(self, event: EventView) -> RefreshView {
        match (self.phase, event) {
            (Phase::Idle, EventView::Start) => RefreshView {
                phase: if self.descriptors.len() == 0 {
                    Phase::Merging
                } else {
                    Phase::CollectingCategories
                },
                ..self
            },
            (Phase::CollectingCategories, EventView::CategoryListed(answer)) => self.after_listing(
                answered(answer),
            ),
            (Phase::FetchingItems, EventView::ItemFetched(outcome)) => if self.accepts(outcome) {
                self.after_outcome(outcome)
            } else {
                self
            },
            (Phase::Merging, EventView::Merge) => RefreshView { phase: Phase::Done, ..self },
            _ => self,
        }
    }

    /// What is to be done once the state `next` is reached.
    pub open spec fn request(next: RefreshView) -> ActionView {
        match next.phase {
            Phase::CollectingCategories => ActionView::FetchCategory {
                name: next.descriptors[next.listings.len() as int].name,
                key: next.descriptors[next.listings.len() as int].key,
            },
            Phase::FetchingItems => if next.outcomes.len() == 0 {
                ActionView::FetchItems { names: next.work }
            } else {
                ActionView::Wait
            },
            _ => ActionView::Merge,
        }
    }

    /// What is to be done outside on `event`.
    pub open spec fn action(self, event: EventView) -> ActionView {
        match (self.phase, event) {
            (Phase::Idle, EventView::Start) => Self::request(self.stepped(event)),
            (Phase::CollectingCategories, EventView::CategoryListed(_)) => Self::request(
                self.stepped(event),
            ),
            (Phase::FetchingItems, EventView::ItemFetched(outcome)) => if self.accepts(outcome) {
                Self::request(self.stepped(event))
            } else {
                ActionView::Rejected
            },
            (Phase::Merging, EventView::Merge) => ActionView::Finish {
                database: merged(
                    descriptor_names(self.descriptors),
                    self.listings,
                    self.outcomes,
                    self.stamp,
                ),
                failed: failed_names(self.outcomes),
            },
            _ => ActionView::Rejected,
        }
    }
}

/// Whatever happens, a refresh stays as its phase says it is.
pub proof fn lemma_step_keeps_wf(state: RefreshView, event: EventView)
    requires
        state.wf(),
    ensures
        state.stepped(event).wf(),
{
    let next = state.stepped(event);
    match (state.phase, event) {
        (Phase::Idle, EventView::Start) => {
            assert(state.listings =~= Seq::<ListingView>::empty());
            assert(state.work =~= Seq::<Seq<char>>::empty());
            assert(work_set(state.listings) =~= Seq::<Seq<char>>::empty());
        },
        (Phase::CollectingCategories, EventView::CategoryListed(answer)) => {
            assert forall|i: int| 0 <= i < next.listings.len() implies (
            #[trigger] next.listings[i]).category == next.descriptors[i].name by {
                if i < state.listings.len() {
                    assert(next.listings[i] == state.listings[i]);
                }
            }
        },
        (Phase::FetchingItems, EventView::ItemFetched(outcome)) => {
            if state.accepts(outcome) {
                assert forall|k: int| 0 <= k < next.outcomes.len() implies next.work.contains(
                    (#[trigger] next.outcomes[k]).name,
                ) by {
                    if k < state.outcomes.len() {
                        assert(next.outcomes[k] == state.outcomes[k]);
                    }
                }
                assert forall|j: int, k: int|
                    0 <= j < next.outcomes.len() && 0 <= k < next.outcomes.len() && j
                        != k implies next.outcomes[j].name != next.outcomes[k].name by {
                    if j < state.outcomes.len() {
                        assert(next.outcomes[j] == state.outcomes[j]);
                    }
                    if k < state.outcomes.len() {
                        assert(next.outcomes[k] == state.outcomes[k]);
                    }
                }
            }
        },
        _ => {},
    }
}

/// The snapshot that a refresh ends with has distinct keys and an index
/// that agrees with its records, whatever was listed and whatever failed.
pub proof fn lemma_finished_snapshot_is_sound(state: RefreshView)
    requires
        state.phase == Phase::Merging,
    ensures
        state.action(EventView::Merge) matches ActionView::Finish { database, failed }
            && database.wf() && database.consistent() && failed == failed_names(state.outcomes),
{
    let names = descriptor_names(state.descriptors);
    let database = merged(names, state.listings, state.outcomes, state.stamp);
    lemma_merged_mods_are_keyed(state.listings, state.outcomes);
    lemma_index_of(database.mods, names);
    lemma_index_is_consistent(database.mods, names, state.stamp);
}

/// A refresh under way.
#[derive(Debug)]
pub struct Refresh {
    phase: Phase,
    descriptors: Vec<CategoryDescriptor>,
    listings: Vec<CategoryListing>,
    work: Vec<String>,
    outcomes: Vec<ItemOutcome>,
    stamp: String,
}

impl View for Refresh {
    type V = RefreshView;

    closed spec fn view(&self) -> RefreshView {
        RefreshView {
            phase: self.phase,
            descriptors: descriptor_views(self.descriptors@),
            listings: listing_views(self.listings@),
            work: self.work.deep_view(),
            outcomes: outcome_views(self.outcomes@),
            stamp: self.stamp@,
        }
    }
}

/// Whether some outcome was reported for the page `name`.
fn has_reported(outcomes: &Vec<ItemOutcome>, name: &str) -> (found: bool)
    ensures
        found == is_reported(outcome_views(outcomes@), name@),
{
    let mut k: usize = 0;
    while k < outcomes.len()
        invariant
            k <= outcomes.len(),
            forall|j: int| 0 <= j < k ==> (#[trigger] outcome_views(outcomes@)[j]).name != name@,
        decreases outcomes.len() - k,
    {
        if same_text(outcomes[k].name.as_str(), name) {
            assert(outcome_views(outcomes@)[k as int].name == name@);
            return true;
        }
        k += 1;
    }
    false
}

/// The names of the descriptors.
fn names_of(descriptors: &Vec<CategoryDescriptor>) -> (out: Vec<String>)
    ensures
        out.deep_view() == descriptor_names(descriptor_views(descriptors@)),
{
    let mut out: Vec<String> = Vec::new();
    let mut i: usize = 0;
    while i < descriptors.len()
        invariant
            i <= descriptors.len(),
            out.len() == i,
            forall|j: int| 0 <= j < i ==> out@[j]@ == descriptors@[j].name@,
        decreases descriptors.len() - i,
    {
        out.push(descriptors[i].name.clone());
        i += 1;
    }
    proof {
        assert(out.deep_view() =~= descriptor_names(descriptor_views(descriptors@)));
    }
    out
}

impl Refresh {
    #[verifier::type_invariant]
    closed spec fn is_as_its_phase_says(&self) -> bool {
        self@.wf()
    }

    /// A refresh of the categories `descriptors` that has not begun. The
    /// snapshot it ends with will carry `stamp` as its time.
    pub fn new(descriptors: Vec<CategoryDescriptor>, stamp: String) -> (out: Self)
        ensures
            out@ == (RefreshView {
                phase: Phase::Idle,
                descriptors: descriptor_views(descriptors@),
                listings: Seq::empty(),
                work: Seq::empty(),
                outcomes: Seq::empty(),
                stamp: stamp@,
            }),
            out@.wf(),
    {
        let out = Refresh {
            phase: Phase::Idle,
            descriptors,
            listings: Vec::new(),
            work: Vec::new(),
            outcomes: Vec::new(),
            stamp,
        };
        proof {
            assert(out@.listings =~= Seq::<ListingView>::empty());
            assert(out@.work =~= Seq::<Seq<char>>::empty());
            assert(out@.outcomes =~= Seq::<OutcomeView>::empty());
        }
        out
    }

    /// A refresh of the wiki's six categories that has not begun, stamped
    /// with the present time: its stamp is the text that stands for a point
    /// in time, the one that the clock shows.
    pub fn begin() -> (out: Self)
        ensures
            out@.phase == Phase::Idle,
            out@.descriptors == configured_categories(),
            out@.listings.len() == 0,
            out@.work.len() == 0,
            out@.outcomes.len() == 0,
            exists|at: Timestamp| out@.stamp == #[trigger] at.stamp(),
            out@.wf(),
    {
        let now = read_clock();
        proof {
            assert(now.text@ == now.at.stamp());
        }
        Refresh::new(category_descriptors(), now.text)
    }

    /// Where the refresh stands.
    pub fn phase(&self) -> (phase: Phase)
        ensures
            phase == self@.phase,
            self@.wf(),
    {
        proof {
            use_type_invariant(self);
        }
        self.phase
    }

    /// What is to be done in the state that was reached.
    fn request(&self) -> (action: Action)
        requires
            self@.wf(),
        ensures
            action@ == RefreshView::request(self@),
    {
        match self.phase {
            Phase::CollectingCategories => {
                let next = &self.descriptors[self.listings.len()];
                Action::FetchCategory { name: next.name.clone(), key: next.key.clone() }
            },
            Phase::FetchingItems => {
                if self.outcomes.len() == 0 {
                    Action::FetchItems { names: crate::catalog::copy_strings(&self.work) }
                } else {
                    Action::Wait
                }
            },
            _ => Action::Merge,
        }
    }

    /// Takes in what happened outside and says what is to be done next.
    pub fn step(self, event: Event) -> (out: (Refresh, Action))
        ensures
            out.0@ == self@.stepped(event@),
            out.1@ == self@.action(event@),
            out.0@.wf(),
    {
        proof {
            use_type_invariant(&self);
            lemma_step_keeps_wf(self@, event@);
        }
        let Refresh { phase, descriptors, mut listings, work, mut outcomes, stamp } = self;
        match (phase, event) {
            (Phase::Idle, Event::Start) => {
                let phase = if descriptors.len() == 0 {
                    Phase::Merging
                } else {
                    Phase::CollectingCategories
                };
                let next = Refresh { phase, descriptors, listings, work, outcomes, stamp };
                let action = next.request();
                (next, action)
            },
            (Phase::CollectingCategories, Event::CategoryListed(answer)) => {
                let members = match answer {
                    Some(members) => members,
                    None => {
                        let members: Vec<String> = Vec::new();
                        proof {
                            assert(members.deep_view() =~= Seq::<Seq<char>>::empty());
                        }
                        members
                    },
                };
                let ghost before = listing_views(listings@);
                let listing = CategoryListing {
                    category: descriptors[listings.len()].name.clone(),
                    members,
                };
                listings.push(listing);
                proof {
                    assert(listing_views(listings@) =~= before.push(listing@));
                }
                let next = if listings.len() < descriptors.len() {
                    Refresh { phase, descriptors, listings, work, outcomes, stamp }
                } else {
                    let work = collect_work(&listings);
                    let phase = if work.len() == 0 {
                        Phase::Merging
                    } else {
                        Phase::FetchingItems
                    };
                    Refresh { phase, descriptors, listings, work, outcomes, stamp }
                };
                let action = next.request();
                (next, action)
            },
            (Phase::FetchingItems, Event::ItemFetched(outcome)) => {
                if contains_name(&work, outcome.name.as_str()) && !has_reported(
                    &outcomes,
                    outcome.name.as_str(),
                ) {
                    let ghost before = outcome_views(outcomes@);
                    outcomes.push(outcome);
                    proof {
                        assert(outcome_views(outcomes@) =~= before.push(outcome@));
                    }
                    let phase = if outcomes.len() >= work.len() {
                        Phase::Merging
                    } else {
                        Phase::FetchingItems
                    };
                    let next = Refresh { phase, descriptors, listings, work, outcomes, stamp };
                    let action = next.request();
                    (next, action)
                } else {
                    (
                        Refresh { phase, descriptors, listings, work, outcomes, stamp },
                        Action::Rejected,
                    )
                }
            },
            (Phase::Merging, Event::Merge) => {
                let names = names_of(&descriptors);
                let result = merge(&names, &listings, &outcomes, stamp.clone());
                (
                    Refresh { phase: Phase::Done, descriptors, listings, work, outcomes, stamp },
                    Action::Finish(result),
                )
            },
            (phase, _) => (
                Refresh { phase, descriptors, listings, work, outcomes, stamp },
                Action::Rejected,
            ),
        }
    }
}

} // verus!
