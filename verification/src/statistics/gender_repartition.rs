//! The figures of a chart of participation by gender, event by event.

use crate::order::ascending_by;
use crate::order::lemma_ascending_unique;
use crate::order::lemma_insert_ascending;
use crate::order::lemma_insert_to_set;
use crate::registration::convention::Convention;
use crate::registration::convention::ConventionView;
use crate::registration::event::event_order;
use crate::registration::event::lemma_event_order_connected;
use crate::registration::event::lemma_event_order_one_way;
use crate::registration::event::lemma_event_order_irreflexive;
use crate::registration::event::lemma_event_order_transitive;
use crate::registration::event::Event;
use crate::registration::event::EventView;
use crate::registration::gender::Gender;
use crate::registration::registrant::Registrant;
use crate::registration::registrant::RegistrantView;
use crate::text::append_decimal;
use crate::text::decimal;
use vstd::prelude::*;
use vstd::string::*;

verus! {

/// How many women and how many men take part in an event.
#[derive(Debug, Clone, Copy, PartialEq, Eq, Structural)]
pub struct GenderCount {
    pub female: u64,
    pub male: u64,
}

/// The participants of an event by gender, for each event of a chart.
pub type Repartition = Vec<(Event, GenderCount)>;

/// How many of `participants` are of `gender`.
pub open spec fn count_of(participants: Seq<RegistrantView>, gender: Gender) -> nat {
    participants.filter(|r: RegistrantView| r.gender == gender).len()
}

/// Whether each event comes before all that follow it, by name and then by position.
pub open spec fn events_ascending(events: Seq<EventView>) -> bool {
    ascending_by(events, event_order())
}

/// Two ascending lists of the same events are the same list.
pub proof fn lemma_events_ascending_unique(a: Seq<EventView>, b: Seq<EventView>)
    requires
        events_ascending(a),
        events_ascending(b),
        a.to_set() == b.to_set(),
    ensures
        a == b,
{
    lemma_event_order_one_way();
    lemma_ascending_unique(a, b, event_order());
}

/// The events of a repartition, in its order.
pub open spec fn charted_events(data: Seq<(Event, GenderCount)>) -> Seq<EventView> {
    Seq::new(data.len(), |i: int| data[i].0@)
}

fn count_participants(participants: &Vec<Registrant>) -> (r: GenderCount)
    ensures
        r.female == count_of(participants.deep_view(), Gender::Female),
        r.male == count_of(participants.deep_view(), Gender::Male),
{
    let ghost all = participants.deep_view();
    let ghost women = |r: RegistrantView| r.gender == Gender::Female;
    let ghost men = |r: RegistrantView| r.gender == Gender::Male;
    let mut female: u64 = 0;
    let mut male: u64 = 0;
    let mut k: usize = 0;
    proof {
        reveal(Seq::filter);
    }
    while k < participants.len()
        invariant
            k <= participants.len(),
            all == participants.deep_view(),
            women == |r: RegistrantView| r.gender == Gender::Female,
            men == |r: RegistrantView| r.gender == Gender::Male,
            female == all.take(k as int).filter(women).len(),
            male == all.take(k as int).filter(men).len(),
            female <= k,
            male <= k,
        decreases participants.len() - k,
    {
        proof {
            assert(all.take(k + 1) =~= all.take(k as int).push(all[k as int]));
            all.take(k as int).lemma_filter_push(all[k as int], women);
            all.take(k as int).lemma_filter_push(all[k as int], men);
        }
        match participants[k].gender() {
            Gender::Female => {
                female = female + 1;
            },
            Gender::Male => {
                male = male + 1;
            },
        }
        k = k + 1;
    }
    assert(all.take(k as int) =~= all);
    GenderCount { female, male }
}

fn place(data: &Repartition, event: &Event) -> (r: (usize, bool))
    requires
        events_ascending(charted_events(data@)),
    ensures
        r.0 <= data.len(),
        r.1 == charted_events(data@).contains(event@),
        r.1 || events_ascending(charted_events(data@).insert(r.0 as int, event@)),
{
    let ghost all = charted_events(data@);
    let mut k: usize = 0;
    while k < data.len()
        invariant
            k <= data.len(),
            all == charted_events(data@),
            events_ascending(all),
            forall|i: int| 0 <= i < k ==> (#[trigger] all[i]).precedes(event@),
        decreases data.len() - k,
    {
        assert(all[k as int] == data@[k as int].0@);
        if data[k].0 == *event {
            return (k, true);
        }
        if !(data[k].0 < *event) {
            proof {
                lemma_event_order_connected(all[k as int], event@);
                lemma_placed(all, k as int, event@);
            }
            return (k, false);
        }
        k = k + 1;
    }
    proof {
        lemma_placed(all, k as int, event@);
    }
    (k, false)
}

proof fn lemma_placed(events: Seq<EventView>, at: int, event: EventView)
    requires
        events_ascending(events),
        0 <= at <= events.len(),
        forall|i: int| 0 <= i < at ==> (#[trigger] events[i]).precedes(event),
        at < events.len() ==> event.precedes(events[at]),
    ensures
        !events.contains(event),
        events_ascending(events.insert(at, event)),
{
    assert forall|i: int| at <= i < events.len() implies event.precedes(#[trigger] events[i]) by {
        if at < i {
            assert(event_order()(events[at], events[i]));
            lemma_event_order_transitive(event, events[at], events[i]);
        }
    }
    assert forall|i: int| 0 <= i < events.len() implies events[i] != event by {
        lemma_event_order_irreflexive(event);
    }
    lemma_insert_ascending(events, at, event, event_order());
}

/// Counts, for each event of the convention, its participants by gender.
/// The events come in ascending order, by name and then by position, each once.
pub fn group_by_gender_by_event(convention: &Convention) -> (r: Repartition)
    ensures
        r.len() == convention@.events.len(),
        events_ascending(charted_events(r@)),
        charted_events(r@).to_set() == convention@.events.to_set(),
        forall|j: int|
            0 <= j < r.len() ==> {
                let listed = convention@.participants_by_event[(#[trigger] r@[j]).0@.index as int];
                &&& r@[j].0@.index < convention@.events.len()
                &&& r@[j].1.female == count_of(listed, Gender::Female)
                &&& r@[j].1.male == count_of(listed, Gender::Male)
            },
{
    let events = convention.events();
    let registrants = convention.participants_by_event();
    let ghost all = convention@.events;
    let ghost index = convention@.participants_by_event;
    let mut data: Repartition = Vec::new();
    let mut i: usize = 0;
    while i < events.len()
        invariant
            i <= events.len(),
            all == convention@.events,
            index == convention@.participants_by_event,
            events.deep_view() == all,
            registrants.deep_view() == index,
            registrants.len() == events.len(),
            convention@.wf(),
            events_ascending(charted_events(data@)),
            charted_events(data@).to_set() == all.take(i as int).to_set(),
            data.len() == i,
            forall|j: int|
                0 <= j < data.len() ==> {
                    let listed = index[(#[trigger] data@[j]).0@.index as int];
                    &&& data@[j].0@.index < all.len()
                    &&& data@[j].1.female == count_of(listed, Gender::Female)
                    &&& data@[j].1.male == count_of(listed, Gender::Male)
                },
        decreases events.len() - i,
    {
        let event = &events[i];
        let ghost charted = charted_events(data@);
        proof {
            assert(all[i as int] == event@);
            assert(all.take(i + 1) =~= all.take(i as int).push(event@));
            all.take(i as int).lemma_push_to_set_commute(event@);
        }
        let (at, found) = place(&data, event);
        proof {
            // The events placed so far stand at earlier positions.
            if found {
                assert(charted.to_set().contains(event@));
                let j = choose|j: int|
                    0 <= j < all.take(i as int).len() && all.take(i as int)[j] == event@;
                assert(all[j].index == j && all[i as int].index == i);
            }
        }
        let count = count_participants(&registrants[i]);
        data.insert(at, (event.clone(), count));
        proof {
            assert(charted_events(data@) =~= charted.insert(at as int, event@));
            lemma_insert_to_set(charted, at as int, event@);
        }
        i = i + 1;
    }
    assert(all.take(i as int) =~= all);
    data
}

/// The count that an event weighs in the height of a chart: the larger of
/// its two counts, or 10 where it has no participant.
pub open spec fn weight_of(count: GenderCount) -> nat {
    if count.female == 0 && count.male == 0 {
        10
    } else if count.female >= count.male {
        count.female as nat
    } else {
        count.male as nat
    }
}

/// The largest weight among the events of a repartition, or 10 where it has no event.
pub open spec fn max_participants(data: Seq<(Event, GenderCount)>) -> nat
    decreases data.len(),
{
    if data.len() == 0 {
        10
    } else if data.len() == 1 {
        weight_of(data[0].1)
    } else {
        let rest = max_participants(data.drop_last());
        if weight_of(data.last().1) >= rest {
            weight_of(data.last().1)
        } else {
            rest
        }
    }
}

/// The largest count of participants that the chart has to show.
pub fn compute_max_participants_count(data: &Repartition) -> (r: u64)
    ensures
        r == max_participants(data@),
{
    if data.len() == 0 {
        return 10;
    }
    let mut largest: u64 = 0;
    let mut k: usize = 0;
    while k < data.len()
        invariant
            k <= data.len(),
            0 < data.len(),
            k > 0 ==> largest == max_participants(data@.take(k as int)),
        decreases data.len() - k,
    {
        let count = data[k].1;
        let weight: u64 = if count.female == 0 && count.male == 0 {
            10
        } else if count.female >= count.male {
            count.female
        } else {
            count.male
        };
        proof {
            assert(data@.take(k + 1).drop_last() =~= data@.take(k as int));
        }
        if k == 0 || weight >= largest {
            largest = weight;
        }
        k = k + 1;
    }
    assert(data@.take(k as int) =~= data@);
    largest
}

/// The upper bound of the axis of counts: the next multiple of ten above
/// the largest count.
pub open spec fn upper_y_bound(data: Seq<(Event, GenderCount)>) -> nat {
    (max_participants(data) + 10) / 10 * 10
}

/// The upper bound of the axis of counts.
pub fn compute_upper_y_bound(data: &Repartition) -> (r: i32)
    requires
        max_participants(data@) + 10 <= i32::MAX,
    ensures
        r == upper_y_bound(data@),
{
    let max_participants_count = compute_max_participants_count(data);
    (((max_participants_count + 10) / 10) * 10) as i32
}

/// The length in bytes of the longest name among the events, or 10 where
/// there is no event.
pub open spec fn longest_name(events: Seq<EventView>) -> nat
    decreases events.len(),
{
    if events.len() == 0 {
        10
    } else if events.len() == 1 {
        vstd::utf8::encode_utf8(events[0].name).len()
    } else {
        let rest = longest_name(events.drop_last());
        let last = vstd::utf8::encode_utf8(events.last().name).len();
        if last >= rest {
            last
        } else {
            rest
        }
    }
}

/// The length in bytes of the longest event name of the convention.
pub fn compute_longest_event_name_length(convention: &Convention) -> (r: usize)
    ensures
        r == longest_name(convention@.events),
{
    let events = convention.events();
    let ghost all = convention@.events;
    if events.len() == 0 {
        return 10;
    }
    let mut longest: usize = 0;
    let mut k: usize = 0;
    while k < events.len()
        invariant
            k <= events.len(),
            0 < events.len(),
            events.deep_view() == all,
            k > 0 ==> longest == longest_name(all.take(k as int)),
        decreases events.len() - k,
    {
        let length = events[k].name().as_str().as_bytes().len();
        proof {
            assert(all.take(k + 1).drop_last() =~= all.take(k as int));
        }
        if k == 0 || length >= longest {
            longest = length;
        }
        k = k + 1;
    }
    assert(all.take(k as int) =~= all);
    longest
}

/// The whole part of the logarithm of `n` to base two; 0 below 2.
pub open spec fn log2_floor(n: nat) -> nat
    decreases n,
{
    if n < 2 {
        0
    } else {
        1 + log2_floor(n / 2)
    }
}

proof fn lemma_log2_floor_below(n: nat, bits: nat)
    requires
        1 <= bits,
        n < vstd::arithmetic::power2::pow2(bits),
    ensures
        log2_floor(n) < bits,
    decreases bits,
{
    if n >= 2 {
        vstd::arithmetic::power2::lemma_pow2_unfold(bits);
        if bits == 1 {
            vstd::arithmetic::power2::lemma2_to64();
        } else {
            lemma_log2_floor_below(n / 2, (bits - 1) as nat);
        }
    }
}

fn whole_log2(n: usize) -> (r: u32)
    ensures
        r == log2_floor(n as nat),
        r < 64,
{
    proof {
        vstd::arithmetic::power2::lemma2_to64_rest();
        lemma_log2_floor_below(n as nat, 64);
    }
    let mut rest: usize = n;
    let mut r: u32 = 0;
    while rest >= 2
        invariant
            log2_floor(n as nat) == r + log2_floor(rest as nat),
            log2_floor(n as nat) < 64,
        decreases rest,
    {
        rest = rest / 2;
        r = r + 1;
    }
    r
}

/// The room below the chart for the names of the events, which are written
/// upright: fifty for each doubling of the longest name.
pub open spec fn margin_bottom(convention: ConventionView) -> nat {
    log2_floor(longest_name(convention.events)) * 50
}

/// The room below the chart for the names of the events.
pub fn compute_margin_bottom(convention: &Convention) -> (r: u32)
    requires
        0 < longest_name(convention@.events) <= i32::MAX,
    ensures
        r == margin_bottom(convention@),
{
    let longest_event_name_length = compute_longest_event_name_length(convention);
    whole_log2(longest_event_name_length) * 50
}

/// The caption of the chart of a year.
pub open spec fn caption_of(year: u16) -> Seq<char> {
    "Répartition femmes/hommes par épreuve ("@ + decimal(year as nat) + ")"@
}

/// The caption of the chart of a year.
pub fn create_caption(year: u16) -> (r: String)
    ensures
        r@ == caption_of(year),
{
    let mut caption = String::from_str("Répartition femmes/hommes par épreuve (");
    append_decimal(&mut caption, year as u128);
    caption.append(")");
    caption
}

} // verus!
