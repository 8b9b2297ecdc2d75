//! Whether a couple of events shares a lot of registrants.

use crate::configuration::events_configuration::EventsConfiguration;
use crate::configuration::events_configuration::EventsConfigurationView;
use crate::configuration::events_mapping::CategoriesMapping;
use crate::configuration::events_mapping::CategoriesMappingView;
use crate::registration::convention::Convention;
use crate::registration::convention::ConventionView;
use crate::registration::registrant::RegistrantView;
use crate::statistics::groups::ascending;
use crate::statistics::groups::lemma_ascending_unique;
use crate::statistics::registrant_set::views_of;
use crate::statistics::registrant_set::RegistrantSet;
use crate::statistics::regrouping::group_registrants;
use crate::statistics::regrouping::groups_of_convention;
use crate::statistics::regrouping::lemma_groups_depend_on_entries;
use crate::statistics::regrouping::same_entries;
use crate::statistics::regrouping::GroupsView;
use crate::statistics::report::render;
use crate::statistics::report::report;
use vstd::prelude::*;
use vstd::set_lib::*;

verus! {

/// How far group `column` depends on group `row`: how many members of
/// `column` are also in `row`, out of how many members `column` has. An
/// empty `row` shares nobody.
pub open spec fn dependency<A>(row: Set<A>, column: Set<A>) -> (nat, nat) {
    if row.is_empty() {
        (0, column.len())
    } else {
        (row.intersect(column).len(), column.len())
    }
}

/// The dependencies of every ordered pair of `groups`: line `i` holds, for
/// each `j`, how far group `j` depends on group `i`.
pub open spec fn dependencies<A>(groups: Seq<Set<A>>) -> Seq<Seq<(nat, nat)>> {
    Seq::new(
        groups.len(),
        |i: int| Seq::new(groups.len(), |j: int| dependency(groups[i], groups[j])),
    )
}

/// A pair of counts, as natural numbers.
pub open spec fn counts(pair: (usize, usize)) -> (nat, nat) {
    (pair.0 as nat, pair.1 as nat)
}

/// A matrix of counts, as natural numbers.
pub open spec fn matrix(lines: Seq<Vec<(usize, usize)>>) -> Seq<Seq<(nat, nat)>> {
    Seq::new(lines.len(), |i: int| Seq::new(lines[i]@.len(), |j: int| counts(lines[i]@[j])))
}

/// A group depends wholly on itself.
pub proof fn lemma_dependency_on_itself<A>(group: Set<A>)
    requires
        group.finite(),
    ensures
        dependency(group, group) == (group.len(), group.len()),
{
    assert(group.intersect(group) =~= group);
}

/// No group shares anybody with the empty group.
pub proof fn lemma_dependency_on_nobody<A>(column: Set<A>)
    ensures
        dependency(Set::<A>::empty(), column) == (0nat, column.len()),
{
}

/// The two groups of a pair share the same number of members either way
/// round; what differs is the size it is held against. So the dependency
/// is the same both ways exactly when the groups have the same size.
pub proof fn lemma_dependency_mirrored<A>(a: Set<A>, b: Set<A>)
    requires
        a.finite(),
        b.finite(),
    ensures
        dependency(a, b).0 == dependency(b, a).0,
        dependency(a, b).1 == b.len(),
        dependency(b, a).1 == a.len(),
        dependency(a, b) == dependency(b, a) <==> a.len() == b.len(),
{
    assert(a.intersect(b) =~= b.intersect(a));
    if a.is_empty() {
        assert(b.intersect(a) =~= Set::<A>::empty());
    }
    if b.is_empty() {
        assert(a.intersect(b) =~= Set::<A>::empty());
    }
}

/// The shared members of two groups are never more than either group has.
pub proof fn lemma_dependency_bounded<A>(row: Set<A>, column: Set<A>)
    requires
        row.finite(),
        column.finite(),
    ensures
        dependency(row, column).0 <= dependency(row, column).1,
        dependency(row, column).0 <= row.len(),
{
    lemma_len_intersect(row, column);
    lemma_len_intersect(column, row);
    assert(row.intersect(column) =~= column.intersect(row));
}

/// How far `registrants_2` depends on `registrants_1`.
pub fn compute_dependency(registrants_1: &RegistrantSet, registrants_2: &RegistrantSet) -> (r: (
    usize,
    usize,
))
    ensures
        counts(r) == dependency(registrants_1@, registrants_2@),
{
    if registrants_1.is_empty() {
        (0, registrants_2.len())
    } else {
        (registrants_1.overlap(registrants_2), registrants_2.len())
    }
}

/// The dependencies of every ordered pair of groups.
pub fn compute_dependencies(registrants: &[RegistrantSet]) -> (r: Vec<Vec<(usize, usize)>>)
    ensures
        matrix(r@) == dependencies(views_of(registrants@)),
{
    let ghost groups = views_of(registrants@);
    let mut lines: Vec<Vec<(usize, usize)>> = Vec::new();
    let mut i: usize = 0;
    while i < registrants.len()
        invariant
            i <= registrants.len(),
            groups == views_of(registrants@),
            lines.len() == i,
            forall|a: int|
                0 <= a < i ==> (#[trigger] lines@[a])@.len() == registrants.len() && forall|
                    b: int,
                |
                    0 <= b < registrants.len() ==> counts(#[trigger] lines@[a]@[b]) == dependency(
                        groups[a],
                        groups[b],
                    ),
        decreases registrants.len() - i,
    {
        let mut line: Vec<(usize, usize)> = Vec::new();
        let mut j: usize = 0;
        while j < registrants.len()
            invariant
                i < registrants.len(),
                j <= registrants.len(),
                groups == views_of(registrants@),
                line.len() == j,
                forall|b: int|
                    0 <= b < j ==> counts(#[trigger] line@[b]) == dependency(
                        groups[i as int],
                        groups[b],
                    ),
            decreases registrants.len() - j,
        {
            line.push(compute_dependency(&registrants[i], &registrants[j]));
            j = j + 1;
        }
        lines.push(line);
        i = i + 1;
    }
    assert(matrix(lines@) =~~= dependencies(groups));
    lines
}

/// The labels of the groups in ascending order. No two such lists differ,
/// and the labels that [`Groups`](crate::statistics::groups::Groups) holds
/// are one.
pub open spec fn labels_in_order(groups: GroupsView) -> Seq<Seq<char>> {
    choose|labels: Seq<Seq<char>>| ascending(labels) && labels.to_set() == groups.dom()
}

/// The members of the groups, in the order of `labels`.
pub open spec fn members_in_order(groups: GroupsView, labels: Seq<Seq<char>>) -> Seq<
    Set<RegistrantView>,
> {
    Seq::new(labels.len(), |i: int| groups[labels[i]])
}

/// The report of the groups: their labels in ascending order, and the
/// dependencies of every ordered pair of them.
pub open spec fn report_of(groups: GroupsView) -> Seq<char> {
    let labels = labels_in_order(groups);
    report(labels, dependencies(members_in_order(groups, labels)))
}

/// The co-registration report of a convention under a mapping and a
/// configuration. The text depends on the values of the three alone: the
/// same roster and documents give the same text, character for character.
pub open spec fn csv_text(
    convention: ConventionView,
    mapping: CategoriesMappingView,
    configuration: EventsConfigurationView,
) -> Seq<char> {
    report_of(groups_of_convention(convention, mapping, configuration))
}

/// The report does not depend on the order in which the two documents
/// list their entries: a mapping with the same entries, and a
/// configuration with the same keys that merge, give the same text.
pub proof fn lemma_report_depends_on_entries(
    convention: ConventionView,
    mapping: CategoriesMappingView,
    configuration: EventsConfigurationView,
    other_mapping: CategoriesMappingView,
    other_configuration: EventsConfigurationView,
)
    requires
        same_entries(mapping, other_mapping),
        configuration.regroup_keys() == other_configuration.regroup_keys(),
    ensures
        csv_text(convention, mapping, configuration) == csv_text(
            convention,
            other_mapping,
            other_configuration,
        ),
{
    lemma_groups_depend_on_entries(
        convention,
        mapping,
        other_mapping,
        configuration.regroup_keys(),
        convention.events.len() as int,
    );
}

/// Generates the co-registration report of a convention: for every pair of
/// groups, how many registrants of the one are also in the other.
pub fn generate_csv_file(
    convention: &Convention,
    events_mapping: &CategoriesMapping,
    events_configuration: &EventsConfiguration,
) -> (r: String)
    ensures
        r@ == csv_text(convention@, events_mapping.deep_view(), events_configuration@),
{
    let groups = group_registrants(convention, events_mapping, events_configuration);
    let labels = groups.labels();
    let members = groups.members();
    let dependencies = compute_dependencies(members.as_slice());
    proof {
        groups.lemma_ordered();
        let wanted = labels_in_order(groups@);
        lemma_ascending_unique(labels.deep_view(), wanted);
        assert(views_of(members@) =~= members_in_order(groups@, wanted));
        assert(matrix(dependencies@).len() == labels.len());
    }
    render(labels, &dependencies)
}

} // verus!
