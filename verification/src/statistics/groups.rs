//! Named groups of registrants, kept in the order of their labels.

use crate::registration::registrant::Registrant;
use crate::registration::registrant::RegistrantView;
use crate::statistics::registrant_set::views_of;
use crate::statistics::registrant_set::RegistrantSet;
use crate::order::ascending_by;
use crate::order::lemma_insert_ascending;
use crate::order::lemma_insert_to_set;
use crate::text::compare_text;
use crate::text::lemma_precedes_connected;
use crate::text::lemma_text_order_one_way;
use crate::text::text_order;
use crate::text::lemma_precedes_irreflexive;
use crate::text::lemma_precedes_transitive;
use crate::text::precedes;
use crate::text::TextOrder;
use vstd::prelude::*;
use vstd::string::*;

verus! {

/// Whether each label comes before all that follow it.
pub open spec fn ascending(labels: Seq<Seq<char>>) -> bool {
    ascending_by(labels, text_order())
}

/// The members of group `label`, or nobody if there is no such group.
pub open spec fn members_or_nobody(
    groups: Map<Seq<char>, Set<RegistrantView>>,
    label: Seq<char>,
) -> Set<RegistrantView> {
    if groups.contains_key(label) {
        groups[label]
    } else {
        Set::empty()
    }
}

/// An ascending list of labels names no label twice.
pub proof fn lemma_ascending_distinct(labels: Seq<Seq<char>>)
    requires
        ascending(labels),
    ensures
        labels.no_duplicates(),
{
    lemma_text_order_one_way();
    crate::order::lemma_ascending_distinct(labels, text_order());
}

/// Two ascending lists of the same labels are the same list: the order of
/// the groups depends on nothing but their labels.
pub proof fn lemma_ascending_unique(a: Seq<Seq<char>>, b: Seq<Seq<char>>)
    requires
        ascending(a),
        ascending(b),
        a.to_set() == b.to_set(),
    ensures
        a == b,
{
    lemma_text_order_one_way();
    crate::order::lemma_ascending_unique(a, b, text_order());
}

/// The groups that lists of labels and of members stand for.
pub open spec fn table(labels: Seq<Seq<char>>, members: Seq<Set<RegistrantView>>) -> Map<
    Seq<char>,
    Set<RegistrantView>,
> {
    Map::new(
        |label: Seq<char>| labels.contains(label),
        |label: Seq<char>| members[labels.index_of(label)],
    )
}

proof fn lemma_table_index(labels: Seq<Seq<char>>, j: int)
    requires
        labels.no_duplicates(),
        0 <= j < labels.len(),
    ensures
        labels.contains(labels[j]),
        labels.index_of(labels[j]) == j,
{
}

proof fn lemma_table_insert(
    labels: Seq<Seq<char>>,
    members: Seq<Set<RegistrantView>>,
    at: int,
    label: Seq<char>,
    group: Set<RegistrantView>,
)
    requires
        labels.no_duplicates(),
        labels.len() == members.len(),
        !labels.contains(label),
        0 <= at <= labels.len(),
    ensures
        labels.insert(at, label).no_duplicates(),
        table(labels.insert(at, label), members.insert(at, group)) == table(labels, members).insert(
            label,
            group,
        ),
{
    let new_labels = labels.insert(at, label);
    let new_members = members.insert(at, group);
    assert forall|i: int, j: int|
        0 <= i < new_labels.len() && 0 <= j < new_labels.len() && i != j implies new_labels[i]
        != new_labels[j] by {
        let earlier = if i < at {
            i
        } else {
            i - 1
        };
        let later = if j < at {
            j
        } else {
            j - 1
        };
        if i != at {
            assert(new_labels[i] == labels[earlier]);
        }
        if j != at {
            assert(new_labels[j] == labels[later]);
        }
    }
    lemma_insert_to_set(labels, at, label);
    assert forall|l: Seq<char>| new_labels.contains(l) <==> (labels.contains(l) || l == label) by {
        assert(new_labels.to_set().contains(l) == new_labels.contains(l));
        assert(labels.to_set().contains(l) == labels.contains(l));
    }
    assert forall|l: Seq<char>| new_labels.contains(l) implies #[trigger] table(
        new_labels,
        new_members,
    )[l] == table(labels, members).insert(label, group)[l] by {
        let i = new_labels.index_of(l);
        if l == label {
            lemma_table_index(new_labels, at);
        } else {
            let earlier = if i < at {
                i
            } else {
                i - 1
            };
            assert(labels[earlier] == l);
            lemma_table_index(labels, earlier);
        }
    }
    assert(table(new_labels, new_members) =~= table(labels, members).insert(label, group));
}

proof fn lemma_table_update(
    labels: Seq<Seq<char>>,
    members: Seq<Set<RegistrantView>>,
    at: int,
    group: Set<RegistrantView>,
)
    requires
        labels.no_duplicates(),
        labels.len() == members.len(),
        0 <= at < labels.len(),
    ensures
        table(labels, members.update(at, group)) == table(labels, members).insert(
            labels[at],
            group,
        ),
{
    assert forall|l: Seq<char>| labels.contains(l) implies #[trigger] table(
        labels,
        members.update(at, group),
    )[l] == table(labels, members).insert(labels[at], group)[l] by {
        lemma_table_index(labels, at);
    }
    assert(table(labels, members.update(at, group)) =~= table(labels, members).insert(
        labels[at],
        group,
    ));
}

/// Groups of registrants by label: a finite map from labels to sets of
/// registrants, held in the ascending order of the labels.
#[derive(Debug)]
pub struct Groups {
    labels: Vec<String>,
    members: Vec<RegistrantSet>,
}

impl View for Groups {
    type V = Map<Seq<char>, Set<RegistrantView>>;

    closed spec fn view(&self) -> Map<Seq<char>, Set<RegistrantView>> {
        table(self.labels.deep_view(), views_of(self.members@))
    }
}

fn locate(labels: &Vec<String>, label: &str) -> (r: (usize, bool))
    requires
        ascending(labels.deep_view()),
    ensures
        r.0 <= labels.len(),
        r.1 ==> r.0 < labels.len() && labels.deep_view()[r.0 as int] == label@,
        r.1 == labels.deep_view().contains(label@),
        ascending(labels.deep_view().insert(r.0 as int, label@)) || r.1,
{
    let ghost all = labels.deep_view();
    let mut k: usize = 0;
    while k < labels.len()
        invariant
            k <= labels.len(),
            all == labels.deep_view(),
            ascending(all),
            forall|i: int| 0 <= i < k ==> precedes(#[trigger] all[i], label@),
        decreases labels.len() - k,
    {
        match compare_text(labels[k].as_str(), label) {
            TextOrder::Before => {},
            TextOrder::Same => {
                return (k, true);
            },
            TextOrder::After => {
                proof {
                    lemma_precedes_connected(all[k as int], label@);
                    lemma_located(all, k as int, label@);
                }
                return (k, false);
            },
        }
        k = k + 1;
    }
    proof {
        lemma_located(all, k as int, label@);
    }
    (k, false)
}

proof fn lemma_located(labels: Seq<Seq<char>>, at: int, label: Seq<char>)
    requires
        ascending(labels),
        0 <= at <= labels.len(),
        forall|i: int| 0 <= i < at ==> precedes(#[trigger] labels[i], label),
        at < labels.len() ==> precedes(label, labels[at]),
    ensures
        !labels.contains(label),
        ascending(labels.insert(at, label)),
{
    assert forall|i: int| at <= i < labels.len() implies precedes(label, #[trigger] labels[i]) by {
        if at < i {
            assert(text_order()(labels[at], labels[i]));
            lemma_precedes_transitive(label, labels[at], labels[i]);
        }
    }
    assert forall|i: int| 0 <= i < labels.len() implies labels[i] != label by {
        lemma_precedes_irreflexive(label);
    }
    lemma_insert_ascending(labels, at, label, text_order());
}

impl Groups {
    /// The invariant of the groups: one set of members for each label, the
    /// labels in ascending order.
    pub closed spec fn wf(&self) -> bool {
        &&& self.labels.len() == self.members.len()
        &&& ascending(self.labels.deep_view())
    }

    /// The labels of the groups, in order.
    pub closed spec fn ordered_labels(&self) -> Seq<Seq<char>> {
        self.labels.deep_view()
    }

    /// The members of the groups, in the order of the labels.
    pub closed spec fn ordered_members(&self) -> Seq<Set<RegistrantView>> {
        views_of(self.members@)
    }

    /// The ordered lists hold exactly the groups: the labels ascend, name
    /// each group once, and each set of members belongs to the label at
    /// the same position.
    pub proof fn lemma_ordered(&self)
        requires
            self.wf(),
        ensures
            ascending(self.ordered_labels()),
            self.ordered_labels().no_duplicates(),
            self.ordered_labels().to_set() == self@.dom(),
            self.ordered_members().len() == self.ordered_labels().len(),
            forall|j: int|
                0 <= j < self.ordered_labels().len() ==> self@[#[trigger] self.ordered_labels()[j]]
                    == self.ordered_members()[j],
    {
        let labels = self.ordered_labels();
        lemma_ascending_distinct(labels);
        assert forall|j: int| 0 <= j < labels.len() implies self@[#[trigger] labels[j]]
            == self.ordered_members()[j] by {
            lemma_table_index(labels, j);
        }
    }

    /// No group at all.
    pub fn new() -> (r: Self)
        ensures
            r.wf(),
            r@ == Map::<Seq<char>, Set<RegistrantView>>::empty(),
    {
        Groups { labels: Vec::new(), members: Vec::new() }
    }

    /// The number of groups.
    pub fn len(&self) -> (r: usize)
        requires
            self.wf(),
        ensures
            r == self.ordered_labels().len(),
    {
        self.labels.len()
    }

    /// The labels of the groups, in ascending order.
    pub fn labels(&self) -> (r: &Vec<String>)
        ensures
            r.deep_view() == self.ordered_labels(),
    {
        &self.labels
    }

    /// The members of the groups, in the order of the labels.
    pub fn members(&self) -> (r: &Vec<RegistrantSet>)
        ensures
            views_of(r@) == self.ordered_members(),
    {
        &self.members
    }

    /// Makes `registrants` the members of group `label`, whether or not
    /// there was such a group.
    pub fn replace(&mut self, label: &str, registrants: &Vec<Registrant>)
        requires
            old(self).wf(),
        ensures
            final(self).wf(),
            final(self)@ == old(self)@.insert(label@, registrants.deep_view().to_set()),
    {
        let ghost labels = self.labels.deep_view();
        let ghost members = views_of(self.members@);
        let group = RegistrantSet::collect(registrants);
        let (at, found) = locate(&self.labels, label);
        proof {
            lemma_ascending_distinct(labels);
        }
        if found {
            self.members.remove(at);
            self.members.insert(at, group);
            proof {
                lemma_table_update(labels, members, at as int, group@);
            }
        } else {
            let name = String::from_str(label);
            self.labels.insert(at, name);
            self.members.insert(at, group);
            proof {
                assert(self.labels.deep_view() =~= labels.insert(at as int, label@));
                lemma_table_insert(labels, members, at as int, label@, group@);
            }
        }
    }

    /// Adds `registrants` to the members of group `label`, which is made
    /// if there was no such group.
    pub fn merge(&mut self, label: &str, registrants: &Vec<Registrant>)
        requires
            old(self).wf(),
        ensures
            final(self).wf(),
            final(self)@ == old(self)@.insert(
                label@,
                members_or_nobody(old(self)@, label@).union(registrants.deep_view().to_set()),
            ),
    {
        let ghost labels = self.labels.deep_view();
        let ghost members = views_of(self.members@);
        let (at, found) = locate(&self.labels, label);
        proof {
            lemma_ascending_distinct(labels);
        }
        if found {
            let mut group = self.members.remove(at);
            proof {
                lemma_table_index(labels, at as int);
            }
            group.extend(registrants);
            self.members.insert(at, group);
            proof {
                lemma_table_update(labels, members, at as int, group@);
            }
        } else {
            let group = RegistrantSet::collect(registrants);
            let name = String::from_str(label);
            self.labels.insert(at, name);
            self.members.insert(at, group);
            proof {
                assert(self.labels.deep_view() =~= labels.insert(at as int, label@));
                lemma_table_insert(labels, members, at as int, label@, group@);
                assert(members_or_nobody(old(self)@, label@).union(
                    registrants.deep_view().to_set(),
                ) =~= registrants.deep_view().to_set());
            }
        }
    }
}

} // verus!
