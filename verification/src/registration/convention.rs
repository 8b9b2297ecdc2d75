//! A convention: its registrants, its events, and who takes part in which.

use crate::error::ApplicationError;
use crate::error::ApplicationErrorView;
use crate::registration::cell::Cell;
use crate::registration::cell::CellView;
use crate::registration::event::Event;
use crate::registration::event::EventView;
use crate::registration::registrant::parse_row;
use crate::registration::registrant::row_of;
use crate::registration::registrant::Registrant;
use crate::registration::registrant::RegistrantView;
use crate::text::contains_separator;
use crate::text::has_separator;
use vstd::prelude::*;

verus! {

/// A registrant with the positions of the events it registered for.
pub type RegistrationView = (RegistrantView, Seq<usize>);

/// The registrants of `registrations` that registered for `event`, in the
/// order of the registrations.
pub open spec fn participants_of(registrations: Seq<RegistrationView>, event: int) -> Seq<
    RegistrantView,
> {
    registrations.filter(|r: RegistrationView| r.1.contains(event as usize)).map_values(
        |r: RegistrationView| r.0,
    )
}

/// For each of `events` events, its participants.
pub open spec fn participants_index(registrations: Seq<RegistrationView>, events: nat) -> Seq<
    Seq<RegistrantView>,
> {
    Seq::new(events, |event: int| participants_of(registrations, event))
}

/// Whether every event that a registration names is one of `events` events.
pub open spec fn registrations_fit(registrations: Seq<RegistrationView>, events: nat) -> bool {
    forall|k: int, j: int|
        0 <= k < registrations.len() && 0 <= j < registrations[k].1.len()
            ==> #[trigger] registrations[k].1[j] < events
}

/// Whether each event stands at its own position in the list.
pub open spec fn events_are_dense(events: Seq<EventView>) -> bool {
    forall|i: int| 0 <= i < events.len() ==> (#[trigger] events[i]).index == i
}

/// A convention is a wrapper over its registrants, and events they have registered to.
#[derive(Debug, PartialEq)]
pub struct Convention {
    /// Second member of this tuple directly refers to the events' index in `events`.
    registrations: Vec<(Registrant, Vec<usize>)>,
    events: Vec<Event>,
    /// This directly use `events` indexes.
    participants_by_event: Vec<Vec<Registrant>>,
}

/// Mathematical value of a [`Convention`].
pub struct ConventionView {
    pub registrations: Seq<RegistrationView>,
    pub events: Seq<EventView>,
    pub participants_by_event: Seq<Seq<RegistrantView>>,
}

impl ConventionView {
    /// The invariant of a convention: the events stand at their positions,
    /// registrations name known events only, and each event is listed with
    /// exactly the registrants that name it.
    pub open spec fn wf(self) -> bool {
        &&& events_are_dense(self.events)
        &&& registrations_fit(self.registrations, self.events.len())
        &&& self.participants_by_event == participants_index(
            self.registrations,
            self.events.len(),
        )
    }
}

impl View for Convention {
    type V = ConventionView;

    closed spec fn view(&self) -> ConventionView {
        ConventionView {
            registrations: self.registrations.deep_view(),
            events: self.events.deep_view(),
            participants_by_event: self.participants_by_event.deep_view(),
        }
    }
}

impl DeepView for Convention {
    type V = ConventionView;

    open spec fn deep_view(&self) -> ConventionView {
        self@
    }
}

/// The deep view of a list of positions is the list itself.
pub proof fn lemma_positions_view(positions: Vec<usize>)
    ensures
        positions.deep_view() == positions@,
{
}

/// Each registration of a list is seen as its registrant's value and its
/// list of positions.
pub proof fn lemma_registrations_view(registrations: Vec<(Registrant, Vec<usize>)>, k: int)
    requires
        0 <= k < registrations.len(),
    ensures
        registrations.deep_view()[k] == (registrations[k].0@, registrations[k].1@),
{
    lemma_positions_view(registrations[k].1);
}

fn names(events: &Vec<usize>, event: usize) -> (r: bool)
    ensures
        r == events@.contains(event),
{
    let mut j: usize = 0;
    while j < events.len()
        invariant
            j <= events.len(),
            forall|i: int| 0 <= i < j ==> events@[i] != event,
        decreases events.len() - j,
    {
        if events[j] == event {
            return true;
        }
        j = j + 1;
    }
    false
}

fn participants(registrations: &Vec<(Registrant, Vec<usize>)>, event: usize) -> (r: Vec<
    Registrant,
>)
    ensures
        r.deep_view() == participants_of(registrations.deep_view(), event as int),
{
    let ghost all = registrations.deep_view();
    let ghost wanted = |r: RegistrationView| r.1.contains(event);
    let ghost person = |r: RegistrationView| r.0;
    let mut found: Vec<Registrant> = Vec::new();
    let mut k: usize = 0;
    assert(all.take(0).filter(wanted) =~= Seq::<RegistrationView>::empty()) by {
        reveal(Seq::filter);
    }
    while k < registrations.len()
        invariant
            k <= registrations.len(),
            all == registrations.deep_view(),
            wanted == |r: RegistrationView| r.1.contains(event),
            person == |r: RegistrationView| r.0,
            found.deep_view() == all.take(k as int).filter(wanted).map_values(person),
        decreases registrations.len() - k,
    {
        proof {
            lemma_registrations_view(*registrations, k as int);
            assert(all.take(k + 1) =~= all.take(k as int).push(all[k as int]));
            all.take(k as int).lemma_filter_push(all[k as int], wanted);
        }
        if names(&registrations[k].1, event) {
            found.push(registrations[k].0.clone());
            assert(all.take(k as int).filter(wanted).push(all[k as int]).map_values(person)
                =~= all.take(k as int).filter(wanted).map_values(person).push(all[k as int].0));
        }
        k = k + 1;
    }
    assert(all.take(k as int) =~= all);
    found
}

fn same_registrants(a: &Vec<Registrant>, b: &Vec<Registrant>) -> (r: bool)
    ensures
        r == (a.deep_view() == b.deep_view()),
{
    assert(a.deep_view().len() == a.len() && b.deep_view().len() == b.len());
    if a.len() != b.len() {
        return false;
    }
    let mut k: usize = 0;
    while k < a.len()
        invariant
            k <= a.len(),
            a.len() == b.len(),
            forall|i: int| 0 <= i < k ==> a.deep_view()[i] == b.deep_view()[i],
        decreases a.len() - k,
    {
        if a[k] != b[k] {
            assert(a.deep_view()[k as int] != b.deep_view()[k as int]);
            return false;
        }
        k = k + 1;
    }
    assert(a.deep_view() =~= b.deep_view());
    true
}

impl Convention {
    #[verifier::type_invariant]
    spec fn sound(&self) -> bool {
        self@.wf()
    }

    /// Whether a convention can be made of these: whether each event stands
    /// at its position and every event that a registration names is one of `events`.
    pub fn fits(registrations: &Vec<(Registrant, Vec<usize>)>, events: &Vec<Event>) -> (r: bool)
        ensures
            r == (events_are_dense(events.deep_view()) && registrations_fit(
                registrations.deep_view(),
                events@.len(),
            )),
    {
        let ghost all = registrations.deep_view();
        let ghost listed = events.deep_view();
        let mut i: usize = 0;
        while i < events.len()
            invariant
                i <= events.len(),
                listed == events.deep_view(),
                forall|a: int| 0 <= a < i ==> (#[trigger] listed[a]).index == a,
            decreases events.len() - i,
        {
            assert(listed[i as int] == events[i as int]@);
            if *events[i].index() != i {
                return false;
            }
            i = i + 1;
        }
        let mut k: usize = 0;
        while k < registrations.len()
            invariant
                k <= registrations.len(),
                all == registrations.deep_view(),
                forall|a: int, b: int|
                    0 <= a < k && 0 <= b < all[a].1.len() ==> #[trigger] all[a].1[b] < events@.len(),
            decreases registrations.len() - k,
        {
            proof {
                lemma_registrations_view(*registrations, k as int);
            }
            let named = &registrations[k].1;
            let mut j: usize = 0;
            while j < named.len()
                invariant
                    j <= named.len(),
                    k < registrations.len(),
                    all == registrations.deep_view(),
                    all[k as int].1 == named@,
                    forall|b: int| 0 <= b < j ==> #[trigger] named@[b] < events@.len(),
                decreases named.len() - j,
            {
                if named[j] >= events.len() {
                    return false;
                }
                j = j + 1;
            }
            k = k + 1;
        }
        true
    }

    /// Whether the three parts agree, so that [`Convention::new`] can take
    /// them: whether `registrations` and `events` fit, and
    /// `participants_by_event` lists each event with exactly the registrants
    /// that name it.
    pub fn agree(
        registrations: &Vec<(Registrant, Vec<usize>)>,
        events: &Vec<Event>,
        participants_by_event: &Vec<Vec<Registrant>>,
    ) -> (r: bool)
        ensures
            r == (events_are_dense(events.deep_view()) && registrations_fit(
                registrations.deep_view(),
                events@.len(),
            ) && participants_by_event.deep_view() == participants_index(
                registrations.deep_view(),
                events@.len(),
            )),
    {
        let ghost wanted = participants_index(registrations.deep_view(), events@.len());
        let ghost given = participants_by_event.deep_view();
        assert(given.len() == participants_by_event.len() && wanted.len() == events.len());
        if !Convention::fits(registrations, events) || participants_by_event.len() != events.len() {
            return false;
        }
        let mut event: usize = 0;
        while event < events.len()
            invariant
                event <= events.len(),
                participants_by_event.len() == events.len(),
                given == participants_by_event.deep_view(),
                wanted == participants_index(registrations.deep_view(), events@.len()),
                forall|i: int| 0 <= i < event ==> given[i] == wanted[i],
            decreases events.len() - event,
        {
            let listed = &participants_by_event[event];
            let found = participants(registrations, event);
            assert(given[event as int] == listed.deep_view());
            if !same_registrants(listed, &found) {
                return false;
            }
            event = event + 1;
        }
        assert(given =~= wanted);
        true
    }

    /// Building a convention is done by associating each participant to the event it has registered to.
    pub fn build(registrations: Vec<(Registrant, Vec<usize>)>, events: Vec<Event>) -> (r: Self)
        requires
            events_are_dense(events.deep_view()),
            registrations_fit(registrations.deep_view(), events@.len()),
        ensures
            r@.registrations == registrations.deep_view(),
            r@.events == events.deep_view(),
            r@.participants_by_event == participants_index(
                registrations.deep_view(),
                events@.len(),
            ),
            r@.wf(),
    {
        let mut participants_by_event: Vec<Vec<Registrant>> = Vec::new();
        let mut event: usize = 0;
        while event < events.len()
            invariant
                event <= events.len(),
                participants_by_event.deep_view() == participants_index(
                    registrations.deep_view(),
                    event as nat,
                ),
            decreases events.len() - event,
        {
            let ghost before = participants_by_event.deep_view();
            let found = participants(&registrations, event);
            participants_by_event.push(found);
            assert(participants_by_event.deep_view() =~= before.push(found.deep_view()));
            assert(participants_by_event.deep_view() =~= participants_index(
                registrations.deep_view(),
                (event + 1) as nat,
            ));
            event = event + 1;
        }
        Convention { registrations, events, participants_by_event }
    }

    /// A convention from its three parts, which must agree: see [`Convention::agree`].
    pub fn new(
        registrations: Vec<(Registrant, Vec<usize>)>,
        events: Vec<Event>,
        participants_by_event: Vec<Vec<Registrant>>,
    ) -> (r: Self)
        requires
            events_are_dense(events.deep_view()),
            registrations_fit(registrations.deep_view(), events@.len()),
            participants_by_event.deep_view() == participants_index(
                registrations.deep_view(),
                events@.len(),
            ),
        ensures
            r@.registrations == registrations.deep_view(),
            r@.events == events.deep_view(),
            r@.participants_by_event == participants_by_event.deep_view(),
            r@.wf(),
    {
        Self { registrations, events, participants_by_event }
    }

    pub fn registrations(&self) -> (r: &Vec<(Registrant, Vec<usize>)>)
        ensures
            r.deep_view() == self@.registrations,
            self@.wf(),
    {
        proof {
            use_type_invariant(self);
        }
        &self.registrations
    }

    pub fn events(&self) -> (r: &Vec<Event>)
        ensures
            r.deep_view() == self@.events,
            self@.wf(),
    {
        proof {
            use_type_invariant(self);
        }
        &self.events
    }

    pub fn participants_by_event(&self) -> (r: &Vec<Vec<Registrant>>)
        ensures
            r.deep_view() == self@.participants_by_event,
            r.len() == self@.events.len(),
            self@.wf(),
    {
        proof {
            use_type_invariant(self);
            assert(self.participants_by_event.deep_view().len() == self.participants_by_event.len());
        }
        &self.participants_by_event
    }
}

/// In a convention, a registrant is listed under an event exactly when one
/// of its registrations names that event.
pub proof fn lemma_participants_are_registered(
    convention: ConventionView,
    event: int,
    registrant: RegistrantView,
)
    requires
        convention.wf(),
        0 <= event < convention.events.len(),
    ensures
        convention.participants_by_event.len() == convention.events.len(),
        convention.participants_by_event[event].contains(registrant) <==> exists|k: int|
            0 <= k < convention.registrations.len() && #[trigger] convention.registrations[k].0
                == registrant && convention.registrations[k].1.contains(event as usize),
{
    let all = convention.registrations;
    let wanted = |r: RegistrationView| r.1.contains(event as usize);
    let person = |r: RegistrationView| r.0;
    let kept = all.filter(wanted);
    let listed = convention.participants_by_event[event];
    assert(listed == kept.map_values(person));
    if listed.contains(registrant) {
        let i = choose|i: int| 0 <= i < listed.len() && listed[i] == registrant;
        assert(kept.contains(kept[i]));
        all.lemma_filter_contains_rev(wanted, kept[i]);
        all.lemma_filter_pred(wanted, i);
        let k = choose|k: int| 0 <= k < all.len() && all[k] == kept[i];
        assert(all[k].0 == registrant && all[k].1.contains(event as usize));
    }
    if exists|k: int|
        0 <= k < all.len() && #[trigger] all[k].0 == registrant && all[k].1.contains(
            event as usize,
        ) {
        let k = choose|k: int|
            0 <= k < all.len() && #[trigger] all[k].0 == registrant && all[k].1.contains(
                event as usize,
            );
        all.lemma_filter_contains(wanted, k);
        let i = choose|i: int| 0 <= i < kept.len() && kept[i] == all[k];
        assert(listed[i] == registrant);
    }
}

/// The headers that name an event: those that hold the separator, in order.
pub open spec fn event_names(headers: Seq<Seq<char>>) -> Seq<Seq<char>> {
    headers.filter(|header: Seq<char>| has_separator(header))
}

/// The events that a header row announces, each at its position among them.
pub open spec fn events_of(headers: Seq<Seq<char>>) -> Seq<EventView> {
    Seq::new(
        event_names(headers).len(),
        |i: int| EventView { index: i as usize, name: event_names(headers)[i] },
    )
}

/// If there's a header, then retrieves the event list which should be denoted by having ` - ` in their names.
pub fn retrieve_event_list(headers: Option<Vec<String>>) -> (r: Result<
    Vec<Event>,
    ApplicationError,
>)
    ensures
        match headers {
            Some(headers) => r matches Ok(events) && events.deep_view() == events_of(
                headers.deep_view(),
            ),
            None => r matches Err(e) && e@ == ApplicationErrorView::NoHeaders,
        },
{
    match headers {
        Some(headers) => {
            let ghost all = headers.deep_view();
            let ghost wanted = |header: Seq<char>| has_separator(header);
            let mut events: Vec<Event> = Vec::new();
            let mut k: usize = 0;
            assert(all.take(0).filter(wanted) =~= Seq::<Seq<char>>::empty()) by {
                reveal(Seq::filter);
            }
            while k < headers.len()
                invariant
                    k <= headers.len(),
                    all == headers.deep_view(),
                    wanted == |header: Seq<char>| has_separator(header),
                    events.deep_view() == events_of(all.take(k as int)),
                decreases headers.len() - k,
            {
                let ghost before = events.deep_view();
                proof {
                    assert(all.take(k + 1) =~= all.take(k as int).push(all[k as int]));
                    all.take(k as int).lemma_filter_push(all[k as int], wanted);
                }
                if contains_separator(headers[k].as_str()) {
                    let event = Event::new(events.len(), headers[k].clone());
                    events.push(event);
                    assert(events.deep_view() =~= before.push(event@));
                }
                k = k + 1;
            }
            assert(all.take(k as int) =~= all);
            Ok(events)
        },
        None => Err(ApplicationError::NoHeaders),
    }
}

/// The rows that describe registrants: all but the first, which holds the headers.
pub open spec fn data_rows(rows: Seq<Seq<CellView>>) -> Seq<Seq<CellView>> {
    if rows.len() <= 1 {
        Seq::empty()
    } else {
        rows.skip(1)
    }
}

/// Reads the registrations of a sheet from its rows, headers first. The
/// first row that [`parse_row`] refuses ends the reading with its error:
/// no registrant of a faulty sheet is admitted.
pub fn parse_rows(rows: &Vec<Vec<Cell>>) -> (r: Result<
    Vec<(Registrant, Vec<usize>)>,
    ApplicationError,
>)
    ensures
        match r {
            Ok(registrations) => {
                &&& registrations.len() == data_rows(rows.deep_view()).len()
                &&& forall|k: int|
                    0 <= k < registrations.len() ==> row_of(
                        #[trigger] data_rows(rows.deep_view())[k],
                    ) == Ok::<RegistrationView, ApplicationErrorView>(
                        registrations.deep_view()[k],
                    )
            },
            Err(e) => exists|k: int|
                {
                    &&& 0 <= k < data_rows(rows.deep_view()).len()
                    &&& row_of(#[trigger] data_rows(rows.deep_view())[k]) == Err::<
                        RegistrationView,
                        ApplicationErrorView,
                    >(e@)
                    &&& forall|j: int|
                        0 <= j < k ==> row_of(#[trigger] data_rows(rows.deep_view())[j]) is Ok
                },
        },
{
    let ghost body = data_rows(rows.deep_view());
    let mut registrations: Vec<(Registrant, Vec<usize>)> = Vec::new();
    let mut k: usize = 1;
    while k < rows.len()
        invariant
            1 <= k,
            body == data_rows(rows.deep_view()),
            rows.len() <= 1 ==> registrations.len() == 0,
            rows.len() > 1 ==> k <= rows.len() && registrations.len() == k - 1,
            forall|i: int|
                0 <= i < registrations.len() ==> row_of(#[trigger] body[i]) == Ok::<
                    RegistrationView,
                    ApplicationErrorView,
                >(registrations.deep_view()[i]),
        decreases rows.len() - k,
    {
        let row = rows[k].as_slice();
        assert(body[k - 1] =~= row.deep_view());
        match parse_row(row) {
            Ok(pair) => {
                proof {
                    lemma_positions_view(pair.1);
                }
                registrations.push(pair);
            },
            Err(e) => {
                assert forall|j: int| 0 <= j < k - 1 implies row_of(#[trigger] body[j]) is Ok by {}
                return Err(e);
            },
        }
        k = k + 1;
    }
    Ok(registrations)
}

} // verus!
