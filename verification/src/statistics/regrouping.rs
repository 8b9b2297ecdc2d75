//! The events of a convention, regrouped into named groups of registrants.
//!
//! Each event whose name the mapping of the year lists feeds one or more
//! groups. Listed under an event key that merges, it joins the group of the
//! category; listed under any other key, it forms a group under its own name.

use crate::configuration::events_configuration::EventsConfiguration;
use crate::configuration::events_configuration::EventsConfigurationView;
use crate::configuration::events_mapping::lists;
use crate::configuration::events_mapping::merges;
use crate::configuration::events_mapping::stands_alone;
use crate::configuration::events_mapping::CategoriesMapping;
use crate::configuration::events_mapping::CategoriesMappingView;
use crate::configuration::events_mapping::EventsMapping;
use crate::configuration::events_mapping::EventsMappingView;
use crate::registration::convention::Convention;
use crate::registration::convention::ConventionView;
use crate::registration::registrant::Registrant;
use crate::registration::registrant::RegistrantView;
use crate::statistics::groups::members_or_nobody;
use crate::statistics::groups::Groups;
use crate::text::same_text;
use vstd::prelude::*;

verus! {

/// Groups of registrants by label.
pub type GroupsView = Map<Seq<char>, Set<RegistrantView>>;

/// Whether the event named `name` feeds the group `label`.
pub open spec fn feeds(
    mapping: CategoriesMappingView,
    keys: Set<Seq<char>>,
    name: Seq<char>,
    label: Seq<char>,
) -> bool {
    merges(mapping, keys, name, label) || (label == name && stands_alone(mapping, keys, name))
}

/// The groups once the event named `name`, with the registrants `present`,
/// has been taken into account. A group that the event merges into gains
/// its registrants; the group of an event that stands alone holds the
/// registrants of that event and no others.
pub open spec fn with_event(
    groups: GroupsView,
    mapping: CategoriesMappingView,
    keys: Set<Seq<char>>,
    name: Seq<char>,
    present: Set<RegistrantView>,
) -> GroupsView {
    Map::new(
        |label: Seq<char>| groups.contains_key(label) || feeds(mapping, keys, name, label),
        |label: Seq<char>|
            if label == name && stands_alone(mapping, keys, name) {
                present
            } else if merges(mapping, keys, name, label) {
                members_or_nobody(groups, label).union(present)
            } else {
                groups[label]
            },
    )
}

/// The groups that the first `count` events of a convention form, taken in
/// the order of the convention. An event that no entry of the mapping lists
/// feeds no group.
pub open spec fn groups_after(
    convention: ConventionView,
    mapping: CategoriesMappingView,
    keys: Set<Seq<char>>,
    count: int,
) -> GroupsView
    decreases count,
{
    if count <= 0 {
        Map::empty()
    } else {
        with_event(
            groups_after(convention, mapping, keys, count - 1),
            mapping,
            keys,
            convention.events[count - 1].name,
            convention.participants_by_event[count - 1].to_set(),
        )
    }
}

/// The groups of a convention under a mapping and a configuration.
pub open spec fn groups_of_convention(
    convention: ConventionView,
    mapping: CategoriesMappingView,
    configuration: EventsConfigurationView,
) -> GroupsView {
    groups_after(convention, mapping, configuration.regroup_keys(), convention.events.len() as int)
}

/// Every group was fed by an event, and every event that feeds a label has
/// its group: an event that the mapping does not list adds none.
pub proof fn lemma_groups_are_fed(
    convention: ConventionView,
    mapping: CategoriesMappingView,
    keys: Set<Seq<char>>,
    count: int,
    label: Seq<char>,
)
    requires
        0 <= count <= convention.events.len(),
    ensures
        groups_after(convention, mapping, keys, count).contains_key(label) <==> exists|i: int|
            0 <= i < count && feeds(mapping, keys, #[trigger] convention.events[i].name, label),
    decreases count,
{
    if count > 0 {
        lemma_groups_are_fed(convention, mapping, keys, count - 1, label);
        if groups_after(convention, mapping, keys, count).contains_key(label) {
            if groups_after(convention, mapping, keys, count - 1).contains_key(label) {
                let i = choose|i: int|
                    0 <= i < count - 1 && feeds(
                        mapping,
                        keys,
                        #[trigger] convention.events[i].name,
                        label,
                    );
                assert(feeds(mapping, keys, convention.events[i].name, label));
            } else {
                assert(feeds(mapping, keys, convention.events[count - 1].name, label));
            }
        }
    }
}

/// The registrants of the first `count` events that merge into `label`.
pub open spec fn merged_members(
    convention: ConventionView,
    mapping: CategoriesMappingView,
    keys: Set<Seq<char>>,
    count: int,
    label: Seq<char>,
) -> Set<RegistrantView> {
    Set::new(
        |registrant: RegistrantView|
            exists|i: int|
                0 <= i < count && merges(mapping, keys, (#[trigger] convention.events[i]).name, label)
                    && convention.participants_by_event[i].contains(registrant),
    )
}

/// A group that no event forms under its own name holds the registrants
/// of the events that merge into it, all of them and no others.
pub proof fn lemma_merged_group_is_union(
    convention: ConventionView,
    mapping: CategoriesMappingView,
    keys: Set<Seq<char>>,
    count: int,
    label: Seq<char>,
)
    requires
        0 <= count <= convention.events.len(),
        forall|i: int|
            0 <= i < count ==> !((#[trigger] convention.events[i]).name == label && stands_alone(
                mapping,
                keys,
                label,
            )),
    ensures
        members_or_nobody(groups_after(convention, mapping, keys, count), label) == merged_members(
            convention,
            mapping,
            keys,
            count,
            label,
        ),
    decreases count,
{
    let now = merged_members(convention, mapping, keys, count, label);
    if count <= 0 {
        assert(now =~= Set::<RegistrantView>::empty());
    } else {
        lemma_merged_group_is_union(convention, mapping, keys, count - 1, label);
        lemma_groups_are_fed(convention, mapping, keys, count - 1, label);
        let earlier = merged_members(convention, mapping, keys, count - 1, label);
        let event = convention.events[count - 1];
        let present = convention.participants_by_event[count - 1].to_set();
        if merges(mapping, keys, event.name, label) {
            assert(now =~= earlier.union(present));
        } else {
            assert(now =~= earlier);
        }
    }
}

/// The group of an event that stands alone holds the registrants of that
/// event and no others, as long as no later event feeds the group: of two
/// such events of one name, the later one replaces the earlier.
pub proof fn lemma_group_of_single_event(
    convention: ConventionView,
    mapping: CategoriesMappingView,
    keys: Set<Seq<char>>,
    count: int,
    last: int,
)
    requires
        0 <= last < count <= convention.events.len(),
        stands_alone(mapping, keys, convention.events[last].name),
        forall|i: int|
            last < i < count ==> !feeds(
                mapping,
                keys,
                (#[trigger] convention.events[i]).name,
                convention.events[last].name,
            ),
    ensures
        groups_after(convention, mapping, keys, count).contains_key(convention.events[last].name),
        groups_after(convention, mapping, keys, count)[convention.events[last].name]
            == convention.participants_by_event[last].to_set(),
    decreases count,
{
    if count > last + 1 {
        lemma_group_of_single_event(convention, mapping, keys, count - 1, last);
        assert(!feeds(
            mapping,
            keys,
            convention.events[count - 1].name,
            convention.events[last].name,
        ));
    }
}

/// Two events that merge into one group and share a registrant: the
/// registrant is a member of the group, and is counted once, so that the
/// group has fewer members than the events and the earlier group have
/// between them.
pub proof fn lemma_merged_events_share_once(
    groups: GroupsView,
    mapping: CategoriesMappingView,
    keys: Set<Seq<char>>,
    label: Seq<char>,
    first: Seq<char>,
    first_present: Set<RegistrantView>,
    second: Seq<char>,
    second_present: Set<RegistrantView>,
    shared: RegistrantView,
)
    requires
        merges(mapping, keys, first, label),
        merges(mapping, keys, second, label),
        first_present.contains(shared),
        second_present.contains(shared),
        first_present.finite(),
        second_present.finite(),
        members_or_nobody(groups, label).finite(),
    ensures
        ({
            let once = with_event(groups, mapping, keys, first, first_present);
            let twice = with_event(once, mapping, keys, second, second_present);
            let earlier = members_or_nobody(groups, label);
            &&& twice.contains_key(label)
            &&& twice[label].contains(shared)
            &&& twice[label].subset_of(earlier.union(first_present).union(second_present))
            &&& twice[label].finite()
            &&& twice[label].len() < earlier.len() + first_present.len() + second_present.len()
        }),
{
    let once = with_event(groups, mapping, keys, first, first_present);
    let twice = with_event(once, mapping, keys, second, second_present);
    let earlier = members_or_nobody(groups, label);
    let all = earlier.union(first_present).union(second_present);
    vstd::set_lib::lemma_len_subset(twice[label], all);
    vstd::set_lib::lemma_set_intersect_union_lens(earlier.union(first_present), second_present);
    vstd::set_lib::lemma_len_union(earlier, first_present);
    assert(earlier.union(first_present).intersect(second_present).contains(shared));
}

/// Whether the mapping holds `name` under `key` of `category`.
pub open spec fn holds_entry(
    mapping: CategoriesMappingView,
    category: Seq<char>,
    key: Seq<char>,
    name: Seq<char>,
) -> bool {
    exists|c: int, e: int| #[trigger]
        lists(mapping, c, e, name) && mapping[c].0 == category && mapping[c].1[e].0 == key
}

/// Whether two mappings hold the same entries, in whatever order and
/// however often.
pub open spec fn same_entries(a: CategoriesMappingView, b: CategoriesMappingView) -> bool {
    forall|category: Seq<char>, key: Seq<char>, name: Seq<char>| #[trigger]
        holds_entry(a, category, key, name) == holds_entry(b, category, key, name)
}

proof fn lemma_entries_feed_alike(
    a: CategoriesMappingView,
    b: CategoriesMappingView,
    keys: Set<Seq<char>>,
    name: Seq<char>,
    label: Seq<char>,
)
    requires
        forall|category: Seq<char>, key: Seq<char>, name: Seq<char>| #[trigger]
            holds_entry(a, category, key, name) ==> holds_entry(b, category, key, name),
    ensures
        merges(a, keys, name, label) ==> merges(b, keys, name, label),
        stands_alone(a, keys, name) ==> stands_alone(b, keys, name),
{
    if merges(a, keys, name, label) {
        let (c, e) = choose|c: int, e: int| #[trigger]
            lists(a, c, e, name) && a[c].0 == label && keys.contains(a[c].1[e].0);
        assert(holds_entry(a, label, a[c].1[e].0, name));
        assert(holds_entry(b, label, a[c].1[e].0, name));
        let (d, f) = choose|d: int, f: int| #[trigger]
            lists(b, d, f, name) && b[d].0 == label && b[d].1[f].0 == a[c].1[e].0;
        assert(lists(b, d, f, name) && b[d].0 == label && keys.contains(b[d].1[f].0));
    }
    if stands_alone(a, keys, name) {
        let (c, e) = choose|c: int, e: int| #[trigger]
            lists(a, c, e, name) && !keys.contains(a[c].1[e].0);
        assert(holds_entry(a, a[c].0, a[c].1[e].0, name));
        assert(holds_entry(b, a[c].0, a[c].1[e].0, name));
        let (d, f) = choose|d: int, f: int| #[trigger]
            lists(b, d, f, name) && b[d].0 == a[c].0 && b[d].1[f].0 == a[c].1[e].0;
        assert(lists(b, d, f, name) && !keys.contains(b[d].1[f].0));
    }
}

/// The groups depend on the entries that the mapping holds, not on the
/// order in which it lists them.
pub proof fn lemma_groups_depend_on_entries(
    convention: ConventionView,
    a: CategoriesMappingView,
    b: CategoriesMappingView,
    keys: Set<Seq<char>>,
    count: int,
)
    requires
        same_entries(a, b),
    ensures
        groups_after(convention, a, keys, count) == groups_after(convention, b, keys, count),
    decreases count,
{
    if count > 0 {
        lemma_groups_depend_on_entries(convention, a, b, keys, count - 1);
        let name = convention.events[count - 1].name;
        assert forall|label: Seq<char>|
            merges(a, keys, name, label) == merges(b, keys, name, label) && stands_alone(
                a,
                keys,
                name,
            ) == stands_alone(b, keys, name) by {
            lemma_entries_feed_alike(a, b, keys, name, label);
            lemma_entries_feed_alike(b, a, keys, name, label);
        }
        assert(groups_after(convention, a, keys, count) =~= groups_after(
            convention,
            b,
            keys,
            count,
        ));
    }
}

/// Whether `name` is listed, in the mapping of one category, under a key of `keys`.
pub open spec fn entry_merges(events: EventsMappingView, keys: Set<Seq<char>>, name: Seq<char>)
    -> bool {
    exists|key: int|
        0 <= key < events.len() && (#[trigger] events[key]).1.contains(name) && keys.contains(
            events[key].0,
        )
}

/// Whether `name` is listed, in the mapping of one category, under a key that is not in `keys`.
pub open spec fn entry_stands(events: EventsMappingView, keys: Set<Seq<char>>, name: Seq<char>)
    -> bool {
    exists|key: int|
        0 <= key < events.len() && (#[trigger] events[key]).1.contains(name) && !keys.contains(
            events[key].0,
        )
}

spec fn merges_before(
    mapping: CategoriesMappingView,
    keys: Set<Seq<char>>,
    name: Seq<char>,
    label: Seq<char>,
    upto: int,
) -> bool {
    exists|category: int|
        0 <= category < upto && category < mapping.len() && (#[trigger] mapping[category]).0
            == label && entry_merges(mapping[category].1, keys, name)
}

spec fn stands_before(
    mapping: CategoriesMappingView,
    keys: Set<Seq<char>>,
    name: Seq<char>,
    upto: int,
) -> bool {
    exists|category: int|
        0 <= category < upto && category < mapping.len() && entry_stands(
            (#[trigger] mapping[category]).1,
            keys,
            name,
        )
}

proof fn lemma_merges_all(
    mapping: CategoriesMappingView,
    keys: Set<Seq<char>>,
    name: Seq<char>,
    label: Seq<char>,
)
    ensures
        merges_before(mapping, keys, name, label, mapping.len() as int) == merges(
            mapping,
            keys,
            name,
            label,
        ),
{
    if merges(mapping, keys, name, label) {
        let (c, e) = choose|c: int, e: int| #[trigger]
            lists(mapping, c, e, name) && mapping[c].0 == label && keys.contains(
                mapping[c].1[e].0,
            );
        assert(mapping[c].1[e].1.contains(name));
        assert(entry_merges(mapping[c].1, keys, name));
        assert(mapping[c].0 == label);
    }
    if merges_before(mapping, keys, name, label, mapping.len() as int) {
        let c = choose|c: int|
            0 <= c < mapping.len() && (#[trigger] mapping[c]).0 == label && entry_merges(
                mapping[c].1,
                keys,
                name,
            );
        let e = choose|e: int|
            0 <= e < mapping[c].1.len() && (#[trigger] mapping[c].1[e]).1.contains(name)
                && keys.contains(mapping[c].1[e].0);
        assert(lists(mapping, c, e, name));
    }
}

proof fn lemma_stands_all(mapping: CategoriesMappingView, keys: Set<Seq<char>>, name: Seq<char>)
    ensures
        stands_before(mapping, keys, name, mapping.len() as int) == stands_alone(
            mapping,
            keys,
            name,
        ),
{
    if stands_alone(mapping, keys, name) {
        let (c, e) = choose|c: int, e: int| #[trigger]
            lists(mapping, c, e, name) && !keys.contains(mapping[c].1[e].0);
        assert(mapping[c].1[e].1.contains(name));
        assert(entry_stands(mapping[c].1, keys, name));
    }
    if stands_before(mapping, keys, name, mapping.len() as int) {
        let c = choose|c: int|
            0 <= c < mapping.len() && entry_stands((#[trigger] mapping[c]).1, keys, name);
        let e = choose|e: int|
            0 <= e < mapping[c].1.len() && (#[trigger] mapping[c].1[e]).1.contains(name)
                && !keys.contains(mapping[c].1[e].0);
        assert(lists(mapping, c, e, name));
    }
}

spec fn with_event_upto(
    groups: GroupsView,
    mapping: CategoriesMappingView,
    keys: Set<Seq<char>>,
    name: Seq<char>,
    present: Set<RegistrantView>,
    upto: int,
) -> GroupsView {
    Map::new(
        |label: Seq<char>|
            groups.contains_key(label) || (label == name && stands_alone(mapping, keys, name))
                || merges_before(mapping, keys, name, label, upto),
        |label: Seq<char>|
            if label == name && stands_alone(mapping, keys, name) {
                present
            } else if merges_before(mapping, keys, name, label, upto) {
                members_or_nobody(groups, label).union(present)
            } else {
                groups[label]
            },
    )
}

/// Whether `text` is one of `texts`.
fn holds(texts: &Vec<String>, text: &str) -> (r: bool)
    ensures
        r == texts.deep_view().contains(text@),
{
    let mut k: usize = 0;
    while k < texts.len()
        invariant
            k <= texts.len(),
            forall|i: int| 0 <= i < k ==> texts.deep_view()[i] != text@,
        decreases texts.len() - k,
    {
        if same_text(texts[k].as_str(), text) {
            assert(texts.deep_view()[k as int] == text@);
            return true;
        }
        k = k + 1;
    }
    false
}

/// The event keys that merge into their category, each at least once.
fn regroup_keys(events_configuration: &EventsConfiguration) -> (r: Vec<String>)
    ensures
        r.deep_view().to_set() == events_configuration@.regroup_keys(),
{
    let ghost configuration = events_configuration@;
    let categories = events_configuration.categories();
    let mut keys: Vec<String> = Vec::new();
    let mut c: usize = 0;
    while c < categories.len()
        invariant
            c <= categories.len(),
            categories.deep_view() == configuration.categories,
            forall|key: Seq<char>|
                keys.deep_view().contains(key) <==> exists|category: int, event: int|
                    category < c && #[trigger] configuration.regroups(category, event, key),
        decreases categories.len() - c,
    {
        let category = &categories[c].1;
        if *category.can_regroup() {
            let events = category.events();
            let mut e: usize = 0;
            while e < events.len()
                invariant
                    e <= events.len(),
                    c < categories.len(),
                    categories.deep_view() == configuration.categories,
                    configuration.categories[c as int].1 == category@,
                    category@.can_regroup,
                    events.deep_view() == category@.events,
                    forall|key: Seq<char>|
                        keys.deep_view().contains(key) <==> exists|category: int, event: int|
                            (category < c || (category == c && event < e))
                                && #[trigger] configuration.regroups(category, event, key),
                decreases events.len() - e,
            {
                let ghost before = keys.deep_view();
                let ghost added = events.deep_view()[e as int].0;
                keys.push(events[e].0.clone());
                proof {
                    assert(keys.deep_view() =~= before.push(added));
                    assert(configuration.regroups(c as int, e as int, added));
                    assert forall|key: Seq<char>|
                        keys.deep_view().contains(key) <==> exists|category: int, event: int|
                            (category < c || (category == c && event < e + 1))
                                && #[trigger] configuration.regroups(category, event, key) by {
                        if keys.deep_view().contains(key) {
                            let i = choose|i: int|
                                0 <= i < keys.deep_view().len() && keys.deep_view()[i] == key;
                            if i < before.len() {
                                assert(before.contains(key));
                            } else {
                                assert(key == added);
                            }
                        }
                        if exists|category: int, event: int|
                            (category < c || (category == c && event < e + 1))
                                && #[trigger] configuration.regroups(category, event, key) {
                            let (a, b) = choose|category: int, event: int|
                                (category < c || (category == c && event < e + 1))
                                    && #[trigger] configuration.regroups(category, event, key);
                            if a == c && b == e {
                                assert(keys.deep_view()[before.len() as int] == key);
                            } else {
                                assert(before.contains(key));
                                let i = choose|i: int| 0 <= i < before.len() && before[i] == key;
                                assert(keys.deep_view()[i] == key);
                            }
                        }
                    }
                }
                e = e + 1;
            }
        }
        proof {
            assert forall|key: Seq<char>|
                keys.deep_view().contains(key) <==> exists|category: int, event: int|
                    category < c + 1 && #[trigger] configuration.regroups(
                        category,
                        event,
                        key,
                    ) by {
                if exists|category: int, event: int|
                    category < c + 1 && #[trigger] configuration.regroups(category, event, key) {
                    let (a, b) = choose|category: int, event: int|
                        category < c + 1 && #[trigger] configuration.regroups(
                            category,
                            event,
                            key,
                        );
                    assert(configuration.regroups(a, b, key));
                }
            }
        }
        c = c + 1;
    }
    proof {
        assert forall|key: Seq<char>|
            keys.deep_view().to_set().contains(key)
                <==> configuration.regroup_keys().contains(key) by {
            if configuration.regroup_keys().contains(key) {
                let (a, b) = choose|category: int, event: int| #[trigger]
                    configuration.regroups(category, event, key);
                assert(a < c);
            }
        }
    }
    keys
}

/// Whether the mapping of one category lists `name` under a key that merges.
fn category_merges(events: &EventsMapping, keys: &Vec<String>, name: &str) -> (r: bool)
    ensures
        r == entry_merges(events.deep_view(), keys.deep_view().to_set(), name@),
{
    let mut e: usize = 0;
    while e < events.len()
        invariant
            e <= events.len(),
            forall|key: int|
                0 <= key < e ==> !((#[trigger] events.deep_view()[key]).1.contains(name@)
                    && keys.deep_view().to_set().contains(events.deep_view()[key].0)),
        decreases events.len() - e,
    {
        assert(events.deep_view()[e as int] == (events[e as int].0@, events[e as int].1.deep_view()));
        if holds(&events[e].1, name) && holds(keys, events[e].0.as_str()) {
            return true;
        }
        e = e + 1;
    }
    false
}

/// Whether the mapping of one category lists `name` under a key that does not merge.
fn category_stands(events: &EventsMapping, keys: &Vec<String>, name: &str) -> (r: bool)
    ensures
        r == entry_stands(events.deep_view(), keys.deep_view().to_set(), name@),
{
    let mut e: usize = 0;
    while e < events.len()
        invariant
            e <= events.len(),
            forall|key: int|
                0 <= key < e ==> !((#[trigger] events.deep_view()[key]).1.contains(name@)
                    && !keys.deep_view().to_set().contains(events.deep_view()[key].0)),
        decreases events.len() - e,
    {
        assert(events.deep_view()[e as int] == (events[e as int].0@, events[e as int].1.deep_view()));
        if holds(&events[e].1, name) && !holds(keys, events[e].0.as_str()) {
            return true;
        }
        e = e + 1;
    }
    false
}

/// Whether the event named `name` forms a group of its own.
fn event_stands_alone(mapping: &CategoriesMapping, keys: &Vec<String>, name: &str) -> (r: bool)
    ensures
        r == stands_alone(mapping.deep_view(), keys.deep_view().to_set(), name@),
{
    let ghost all = mapping.deep_view();
    let ghost merging = keys.deep_view().to_set();
    let mut c: usize = 0;
    while c < mapping.len()
        invariant
            c <= mapping.len(),
            all == mapping.deep_view(),
            merging == keys.deep_view().to_set(),
            !stands_before(all, merging, name@, c as int),
        decreases mapping.len() - c,
    {
        assert(all[c as int].1 == mapping[c as int].1.deep_view());
        if category_stands(&mapping[c].1, keys, name) {
            proof {
                lemma_stands_all(all, merging, name@);
            }
            return true;
        }
        c = c + 1;
    }
    proof {
        lemma_stands_all(all, merging, name@);
    }
    false
}

/// Takes one event into account: see [`with_event`].
fn add_event(
    groups: &mut Groups,
    mapping: &CategoriesMapping,
    keys: &Vec<String>,
    name: &str,
    present: &Vec<Registrant>,
)
    requires
        old(groups).wf(),
    ensures
        final(groups).wf(),
        final(groups)@ == with_event(
            old(groups)@,
            mapping.deep_view(),
            keys.deep_view().to_set(),
            name@,
            present.deep_view().to_set(),
        ),
{
    let ghost all = mapping.deep_view();
    let ghost merging = keys.deep_view().to_set();
    let ghost members = present.deep_view().to_set();
    let ghost before = groups@;
    if event_stands_alone(mapping, keys, name) {
        groups.replace(name, present);
    }
    let mut c: usize = 0;
    while c < mapping.len()
        invariant
            c <= mapping.len(),
            groups.wf(),
            all == mapping.deep_view(),
            merging == keys.deep_view().to_set(),
            members == present.deep_view().to_set(),
            groups@ == with_event_upto(before, all, merging, name@, members, c as int),
        decreases mapping.len() - c,
    {
        let ghost current = groups@;
        let merged = category_merges(&mapping[c].1, keys, name);
        if merged {
            groups.merge(mapping[c].0.as_str(), present);
        }
        proof {
            let label = all[c as int].0;
            assert forall|l: Seq<char>|
                merges_before(all, merging, name@, l, c + 1) <==> (merges_before(
                    all,
                    merging,
                    name@,
                    l,
                    c as int,
                ) || (merged && l == label)) by {
                if merges_before(all, merging, name@, l, c + 1) {
                    let k = choose|k: int|
                        0 <= k < c + 1 && k < all.len() && (#[trigger] all[k]).0 == l
                            && entry_merges(all[k].1, merging, name@);
                    if k < c {
                        assert(merges_before(all, merging, name@, l, c as int));
                    }
                }
                if merges_before(all, merging, name@, l, c as int) {
                    let k = choose|k: int|
                        0 <= k < c && k < all.len() && (#[trigger] all[k]).0 == l && entry_merges(
                            all[k].1,
                            merging,
                            name@,
                        );
                    assert(all[k].0 == l);
                }
                if merged && l == label {
                    assert(all[c as int].0 == l);
                }
            }
            let target = with_event_upto(before, all, merging, name@, members, c + 1);
            assert forall|l: Seq<char>| groups@.contains_key(l) == target.contains_key(l) by {}
            assert forall|l: Seq<char>| groups@.contains_key(l) implies groups@[l] == target[l] by {
                if merged && l == label {
                    let earlier = members_or_nobody(before, label);
                    if label == name@ && stands_alone(all, merging, name@) {
                        assert(current[label] == members);
                    } else if merges_before(all, merging, name@, label, c as int) {
                        assert(current[label] == earlier.union(members));
                    } else {
                        assert(members_or_nobody(current, label) == earlier);
                    }
                }
            }
        }
        c = c + 1;
    }
    proof {
        assert forall|l: Seq<char>|
            merges_before(all, merging, name@, l, all.len() as int) == merges(
                all,
                merging,
                name@,
                l,
            ) by {
            lemma_merges_all(all, merging, name@, l);
        }
    }
}

/// Regroups the events of a convention into named groups of registrants.
pub fn group_registrants(
    convention: &Convention,
    events_mapping: &CategoriesMapping,
    events_configuration: &EventsConfiguration,
) -> (r: Groups)
    ensures
        r.wf(),
        r@ == groups_of_convention(
            convention@,
            events_mapping.deep_view(),
            events_configuration@,
        ),
{
    let keys = regroup_keys(events_configuration);
    let events = convention.events();
    let registrants = convention.participants_by_event();
    let ghost merging = keys.deep_view().to_set();
    let mut groups = Groups::new();
    let mut i: usize = 0;
    while i < events.len()
        invariant
            i <= events.len(),
            events.deep_view() == convention@.events,
            registrants.deep_view() == convention@.participants_by_event,
            registrants.len() == events.len(),
            merging == keys.deep_view().to_set(),
            groups.wf(),
            groups@ == groups_after(convention@, events_mapping.deep_view(), merging, i as int),
        decreases events.len() - i,
    {
        add_event(
            &mut groups,
            events_mapping,
            &keys,
            events[i].name().as_str(),
            &registrants[i],
        );
        i = i + 1;
    }
    groups
}

} // verus!
