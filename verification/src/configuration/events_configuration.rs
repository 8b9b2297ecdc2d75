//! The categories of events, and which of them merge their events.

use vstd::prelude::*;

verus! {

/// A category of events. Its events are listed as pairs of an event key and
/// the name under which the event is displayed.
#[derive(Debug, Clone)]
pub struct EventsCategory {
    name: String,
    can_regroup: bool,
    events: Vec<(String, String)>,
}

/// Mathematical value of an [`EventsCategory`].
pub struct EventsCategoryView {
    pub name: Seq<char>,
    pub can_regroup: bool,
    pub events: Seq<(Seq<char>, Seq<char>)>,
}

impl View for EventsCategory {
    type V = EventsCategoryView;

    closed spec fn view(&self) -> EventsCategoryView {
        EventsCategoryView {
            name: self.name@,
            can_regroup: self.can_regroup,
            events: self.events.deep_view(),
        }
    }
}

impl DeepView for EventsCategory {
    type V = EventsCategoryView;

    open spec fn deep_view(&self) -> EventsCategoryView {
        self@
    }
}

impl EventsCategory {
    pub fn new(name: String, can_regroup: bool, events: Vec<(String, String)>) -> (r: Self)
        ensures
            r@ == (EventsCategoryView {
                name: name@,
                can_regroup,
                events: events.deep_view(),
            }),
    {
        Self { name, can_regroup, events }
    }

    pub fn name(&self) -> (r: &String)
        ensures
            r@ == self@.name,
    {
        &self.name
    }

    pub fn can_regroup(&self) -> (r: &bool)
        ensures
            *r == self@.can_regroup,
    {
        &self.can_regroup
    }

    pub fn events(&self) -> (r: &Vec<(String, String)>)
        ensures
            r.deep_view() == self@.events,
    {
        &self.events
    }
}

/// The categories of events, listed as pairs of a category key and the
/// category. The list is read as a relation: the order of its entries
/// means nothing.
#[derive(Debug, Clone)]
pub struct EventsConfiguration {
    categories: Vec<(String, EventsCategory)>,
}

/// Mathematical value of an [`EventsConfiguration`].
pub struct EventsConfigurationView {
    pub categories: Seq<(Seq<char>, EventsCategoryView)>,
}

impl View for EventsConfiguration {
    type V = EventsConfigurationView;

    closed spec fn view(&self) -> EventsConfigurationView {
        EventsConfigurationView { categories: self.categories.deep_view() }
    }
}

impl DeepView for EventsConfiguration {
    type V = EventsConfigurationView;

    open spec fn deep_view(&self) -> EventsConfigurationView {
        self@
    }
}

impl EventsConfiguration {
    pub fn new(categories: Vec<(String, EventsCategory)>) -> (r: Self)
        ensures
            r@ == (EventsConfigurationView { categories: categories.deep_view() }),
    {
        Self { categories }
    }

    pub fn categories(&self) -> (r: &Vec<(String, EventsCategory)>)
        ensures
            r.deep_view() == self@.categories,
    {
        &self.categories
    }
}

impl EventsConfigurationView {
    /// Whether event `event` of category `category` is listed under `key`
    /// in a category that merges its events.
    pub open spec fn regroups(self, category: int, event: int, key: Seq<char>) -> bool {
        &&& 0 <= category < self.categories.len()
        &&& self.categories[category].1.can_regroup
        &&& 0 <= event < self.categories[category].1.events.len()
        &&& self.categories[category].1.events[event].0 == key
    }

    /// The event keys that merge into their category: those of the
    /// categories that can regroup.
    pub open spec fn regroup_keys(self) -> Set<Seq<char>> {
        Set::new(
            |key: Seq<char>|
                exists|category: int, event: int| #[trigger] self.regroups(category, event, key),
        )
    }
}

} // verus!
