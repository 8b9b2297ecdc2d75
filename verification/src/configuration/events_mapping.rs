//! The mapping of one year: which names of the year's sheet stand for
//! which event key of which category.

use vstd::prelude::*;

verus! {

/// For each event key of a category, the names that the sheet gives the event.
/// The list is read as a relation: the order of its entries means nothing.
pub type EventsMapping = Vec<(String, Vec<String>)>;

/// For each category key, the mapping of its events.
/// The list is read as a relation: the order of its entries means nothing.
pub type CategoriesMapping = Vec<(String, EventsMapping)>;

/// Mathematical value of an [`EventsMapping`].
pub type EventsMappingView = Seq<(Seq<char>, Seq<Seq<char>>)>;

/// Mathematical value of a [`CategoriesMapping`].
pub type CategoriesMappingView = Seq<(Seq<char>, EventsMappingView)>;

/// Whether entry `key` of entry `category` of the mapping lists `name`.
pub open spec fn lists(mapping: CategoriesMappingView, category: int, key: int, name: Seq<char>)
    -> bool {
    &&& 0 <= category < mapping.len()
    &&& 0 <= key < mapping[category].1.len()
    &&& mapping[category].1[key].1.contains(name)
}

/// Whether the event named `name` merges into the group `label`: an entry
/// of category `label` lists the name under a key of `keys`.
pub open spec fn merges(
    mapping: CategoriesMappingView,
    keys: Set<Seq<char>>,
    name: Seq<char>,
    label: Seq<char>,
) -> bool {
    exists|category: int, key: int| #[trigger]
        lists(mapping, category, key, name) && mapping[category].0 == label && keys.contains(
            mapping[category].1[key].0,
        )
}

/// Whether the event named `name` forms a group of its own: an entry lists
/// the name under a key that is not in `keys`.
pub open spec fn stands_alone(
    mapping: CategoriesMappingView,
    keys: Set<Seq<char>>,
    name: Seq<char>,
) -> bool {
    exists|category: int, key: int| #[trigger]
        lists(mapping, category, key, name) && !keys.contains(mapping[category].1[key].0)
}

} // verus!
