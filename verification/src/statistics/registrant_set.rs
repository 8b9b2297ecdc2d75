//! A set of distinct registrants.

use crate::registration::registrant::Registrant;
use crate::registration::registrant::RegistrantView;
use vstd::prelude::*;

verus! {

/// A finite set of registrants, in which a person occurs once however often
/// it was added. Two registrants are the same person when their values are equal.
#[derive(Debug)]
pub struct RegistrantSet {
    members: Vec<Registrant>,
}

impl View for RegistrantSet {
    type V = Set<RegistrantView>;

    closed spec fn view(&self) -> Set<RegistrantView> {
        self.members.deep_view().to_set()
    }
}

impl DeepView for RegistrantSet {
    type V = Set<RegistrantView>;

    open spec fn deep_view(&self) -> Set<RegistrantView> {
        self@
    }
}

/// The views of a list of sets.
pub open spec fn views_of(sets: Seq<RegistrantSet>) -> Seq<Set<RegistrantView>> {
    Seq::new(sets.len(), |i: int| sets[i]@)
}

/// How many members of `members` belong to `others`.
pub open spec fn shared_count(members: Seq<RegistrantView>, others: Set<RegistrantView>) -> nat
    decreases members.len(),
{
    if members.len() == 0 {
        0
    } else {
        shared_count(members.drop_last(), others) + if others.contains(members.last()) {
            1nat
        } else {
            0nat
        }
    }
}

/// Counting the members of a duplicate-free list that belong to a set
/// gives the size of the intersection.
pub proof fn lemma_shared_count(members: Seq<RegistrantView>, others: Set<RegistrantView>)
    requires
        members.no_duplicates(),
    ensures
        shared_count(members, others) == members.to_set().intersect(others).len(),
        shared_count(members, others) <= members.len(),
    decreases members.len(),
{
    broadcast use vstd::seq_lib::seq_to_set_is_finite;

    if members.len() == 0 {
        assert(members.to_set().intersect(others) =~= Set::<RegistrantView>::empty());
    } else {
        let rest = members.drop_last();
        let last = members.last();
        lemma_shared_count(rest, others);
        assert(members =~= rest.push(last));
        assert(members.to_set() =~= rest.to_set().insert(last)) by {
            rest.lemma_push_to_set_commute(last);
        }
        assert(!rest.to_set().contains(last)) by {
            if rest.to_set().contains(last) {
                let i = choose|i: int| 0 <= i < rest.len() && rest[i] == last;
                assert(members[i] == members[members.len() - 1]);
            }
        }
        if others.contains(last) {
            assert(members.to_set().intersect(others) =~= rest.to_set().intersect(others).insert(
                last,
            ));
        } else {
            assert(members.to_set().intersect(others) =~= rest.to_set().intersect(others));
        }
    }
}

impl RegistrantSet {
    #[verifier::type_invariant]
    spec fn distinct(&self) -> bool {
        self.members.deep_view().no_duplicates()
    }

    /// A set is finite.
    pub proof fn lemma_finite(&self)
        ensures
            self@.finite(),
    {
        broadcast use vstd::seq_lib::seq_to_set_is_finite;

    }

    /// The set without members.
    pub fn new() -> (r: Self)
        ensures
            r@ == Set::<RegistrantView>::empty(),
    {
        RegistrantSet { members: Vec::new() }
    }

    /// The number of distinct registrants.
    pub fn len(&self) -> (r: usize)
        ensures
            r == self@.len(),
    {
        proof {
            use_type_invariant(self);
            self.members.deep_view().unique_seq_to_set();
        }
        self.members.len()
    }

    pub fn is_empty(&self) -> (r: bool)
        ensures
            r == self@.is_empty(),
    {
        proof {
            use_type_invariant(self);
            self.members.deep_view().unique_seq_to_set();
            self.lemma_finite();
            if self.members.len() == 0 {
                self@.lemma_len0_is_empty();
            }
        }
        self.members.len() == 0
    }

    /// Whether `registrant` is a member.
    pub fn contains(&self, registrant: &Registrant) -> (r: bool)
        ensures
            r == self@.contains(registrant@),
    {
        let mut k: usize = 0;
        while k < self.members.len()
            invariant
                k <= self.members.len(),
                forall|i: int| 0 <= i < k ==> self.members.deep_view()[i] != registrant@,
            decreases self.members.len() - k,
        {
            if self.members[k] == *registrant {
                assert(self.members.deep_view()[k as int] == registrant@);
                return true;
            }
            k = k + 1;
        }
        false
    }

    /// Adds `registrant`, unless it is a member already. Returns whether it was added.
    pub fn insert(&mut self, registrant: Registrant) -> (r: bool)
        ensures
            final(self)@ == old(self)@.insert(registrant@),
            r == !old(self)@.contains(registrant@),
    {
        if self.contains(&registrant) {
            false
        } else {
            proof {
                use_type_invariant(&*self);
            }
            let ghost before = self.members.deep_view();
            let mut members: Vec<Registrant> = Vec::new();
            std::mem::swap(&mut self.members, &mut members);
            members.push(registrant);
            proof {
                assert(members.deep_view() =~= before.push(registrant@));
                before.lemma_push_to_set_commute(registrant@);
            }
            self.members = members;
            true
        }
    }

    /// Adds each of `registrants` that is not a member already.
    pub fn extend(&mut self, registrants: &Vec<Registrant>)
        ensures
            final(self)@ == old(self)@.union(registrants.deep_view().to_set()),
    {
        let ghost added = registrants.deep_view();
        let mut k: usize = 0;
        while k < registrants.len()
            invariant
                k <= registrants.len(),
                added == registrants.deep_view(),
                self@ == old(self)@.union(added.take(k as int).to_set()),
            decreases registrants.len() - k,
        {
            proof {
                assert(added.take(k + 1) =~= added.take(k as int).push(added[k as int]));
                added.take(k as int).lemma_push_to_set_commute(added[k as int]);
            }
            self.insert(registrants[k].clone());
            k = k + 1;
        }
        assert(added.take(k as int) =~= added);
    }

    /// The set of the registrants of a list.
    pub fn collect(registrants: &Vec<Registrant>) -> (r: Self)
        ensures
            r@ == registrants.deep_view().to_set(),
    {
        let mut r = RegistrantSet::new();
        r.extend(registrants);
        r
    }

    /// How many registrants belong to both sets.
    pub fn overlap(&self, other: &RegistrantSet) -> (r: usize)
        ensures
            r == self@.intersect(other@).len(),
    {
        let ghost mine = self.members.deep_view();
        let mut count: usize = 0;
        let mut k: usize = 0;
        proof {
            use_type_invariant(self);
        }
        while k < self.members.len()
            invariant
                k <= self.members.len(),
                mine == self.members.deep_view(),
                mine.no_duplicates(),
                count == shared_count(mine.take(k as int), other@),
                count <= k,
            decreases self.members.len() - k,
        {
            proof {
                assert(mine.take(k + 1).drop_last() =~= mine.take(k as int));
            }
            if other.contains(&self.members[k]) {
                count = count + 1;
            }
            k = k + 1;
        }
        proof {
            assert(mine.take(k as int) =~= mine);
            lemma_shared_count(mine, other@);
        }
        count
    }
}

} // verus!
