//! An event of a convention: one column of the roster.

use crate::order::one_way;
use crate::text::compare_text;
use crate::text::lemma_precedes_asymmetric;
use crate::text::lemma_precedes_connected;
use crate::text::lemma_precedes_irreflexive;
use crate::text::lemma_precedes_transitive;
use crate::text::precedes;
use crate::text::TextOrder;
use std::cmp::Ordering;
use vstd::prelude::*;

verus! {

/// An event, known by its position among the event columns and its name.
#[derive(Debug, Eq, Ord, Hash)]
pub struct Event {
    name: String,
    /// Position of the event's column, counted from the first event column.
    index: usize,
}

/// Mathematical value of an [`Event`].
pub struct EventView {
    pub index: usize,
    pub name: Seq<char>,
}

impl EventView {
    /// Events are listed by name, then by position.
    pub open spec fn precedes(self, other: EventView) -> bool {
        precedes(self.name, other.name) || (self.name == other.name && self.index < other.index)
    }
}

/// No event comes before itself.
pub proof fn lemma_event_order_irreflexive(a: EventView)
    ensures
        !a.precedes(a),
{
    lemma_precedes_irreflexive(a.name);
}

/// The order of events is transitive.
pub proof fn lemma_event_order_transitive(a: EventView, b: EventView, c: EventView)
    requires
        a.precedes(b),
        b.precedes(c),
    ensures
        a.precedes(c),
{
    if precedes(a.name, b.name) && precedes(b.name, c.name) {
        lemma_precedes_transitive(a.name, b.name, c.name);
    }
}

/// Two events cannot come before each other.
pub proof fn lemma_event_order_asymmetric(a: EventView, b: EventView)
    ensures
        !(a.precedes(b) && b.precedes(a)),
{
    lemma_precedes_asymmetric(a.name, b.name);
    lemma_precedes_irreflexive(a.name);
}

/// The order of events, as a relation.
pub open spec fn event_order() -> spec_fn(EventView, EventView) -> bool {
    |a: EventView, b: EventView| a.precedes(b)
}

/// No event comes before itself, and no two events before each other.
pub proof fn lemma_event_order_one_way()
    ensures
        one_way(event_order()),
{
    assert forall|a: EventView, b: EventView| !(#[trigger] event_order()(a, b) && event_order()(
        b,
        a,
    )) by {
        lemma_event_order_asymmetric(a, b);
    }
}

/// Any two distinct events are ordered one way or the other.
pub proof fn lemma_event_order_connected(a: EventView, b: EventView)
    ensures
        a.precedes(b) || b.precedes(a) || a == b,
{
    lemma_precedes_connected(a.name, b.name);
}

impl View for Event {
    type V = EventView;

    closed spec fn view(&self) -> EventView {
        EventView { index: self.index, name: self.name@ }
    }
}

impl DeepView for Event {
    type V = EventView;

    open spec fn deep_view(&self) -> EventView {
        self@
    }
}

impl Event {
    pub fn new(index: usize, name: String) -> (r: Self)
        ensures
            r@ == (EventView { index, name: name@ }),
    {
        Self { name, index }
    }

    /// Position of the event's column, counted from the first event column.
    pub fn index(&self) -> (r: &usize)
        ensures
            *r == self@.index,
    {
        &self.index
    }

    pub fn name(&self) -> (r: &String)
        ensures
            r@ == self@.name,
    {
        &self.name
    }
}

impl Clone for Event {
    fn clone(&self) -> (r: Self)
        ensures
            r == *self,
    {
        Self { name: self.name.clone(), index: self.index }
    }
}

impl PartialEq for Event {
    fn eq(&self, other: &Self) -> (r: bool) {
        self.index == other.index && self.name == other.name
    }
}

impl vstd::std_specs::cmp::PartialEqSpecImpl for Event {
    open spec fn obeys_eq_spec() -> bool {
        true
    }

    open spec fn eq_spec(&self, other: &Self) -> bool {
        self@ == other@
    }
}

impl PartialOrd for Event {
    fn partial_cmp(&self, other: &Self) -> (r: Option<Ordering>) {
        match compare_text(self.name.as_str(), other.name.as_str()) {
            TextOrder::Before => Some(Ordering::Less),
            TextOrder::After => Some(Ordering::Greater),
            TextOrder::Same => if self.index < other.index {
                Some(Ordering::Less)
            } else if self.index == other.index {
                Some(Ordering::Equal)
            } else {
                Some(Ordering::Greater)
            },
        }
    }
}

impl vstd::std_specs::cmp::PartialOrdSpecImpl for Event {
    open spec fn obeys_partial_cmp_spec() -> bool {
        true
    }

    open spec fn partial_cmp_spec(&self, other: &Self) -> Option<Ordering> {
        if self@.precedes(other@) {
            Some(Ordering::Less)
        } else if self@ == other@ {
            Some(Ordering::Equal)
        } else {
            Some(Ordering::Greater)
        }
    }
}

} // verus!
