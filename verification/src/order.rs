//! Lists in ascending order.

use vstd::prelude::*;

verus! {

/// Whether each item of the list comes before all that follow it.
pub open spec fn ascending_by<A>(items: Seq<A>, before: spec_fn(A, A) -> bool) -> bool {
    forall|i: int, j: int| 0 <= i < j < items.len() ==> before(items[i], items[j])
}

/// Whether no item comes before itself, and no two items before each other.
pub open spec fn one_way<A>(before: spec_fn(A, A) -> bool) -> bool {
    forall|x: A, y: A| !(#[trigger] before(x, y) && before(y, x))
}

/// A list in ascending order holds no item twice.
pub proof fn lemma_ascending_distinct<A>(items: Seq<A>, before: spec_fn(A, A) -> bool)
    requires
        one_way(before),
        ascending_by(items, before),
    ensures
        items.no_duplicates(),
{
    assert forall|i: int, j: int|
        0 <= i < items.len() && 0 <= j < items.len() && i != j implies items[i] != items[j] by {
        if i < j {
            assert(before(items[i], items[j]));
        } else {
            assert(before(items[j], items[i]));
        }
    }
}

/// The items of a list without its last item are those of the list but
/// the last, where the list holds no item twice.
pub proof fn lemma_drop_last_to_set<A>(items: Seq<A>)
    requires
        items.no_duplicates(),
        items.len() > 0,
    ensures
        items.drop_last().to_set() == items.to_set().remove(items.last()),
{
    let shorter = items.drop_last();
    assert forall|x: A| shorter.to_set().contains(x) <==> items.to_set().remove(
        items.last(),
    ).contains(x) by {
        if shorter.to_set().contains(x) {
            let k = choose|k: int| 0 <= k < shorter.len() && shorter[k] == x;
            assert(items[k] == x);
        }
        if items.to_set().remove(items.last()).contains(x) {
            let k = choose|k: int| 0 <= k < items.len() && items[k] == x;
            assert(shorter[k] == x);
        }
    }
    assert(shorter.to_set() =~= items.to_set().remove(items.last()));
}

/// Two lists in ascending order that hold the same items are the same
/// list: the order of the items depends on nothing but the items.
pub proof fn lemma_ascending_unique<A>(a: Seq<A>, b: Seq<A>, before: spec_fn(A, A) -> bool)
    requires
        one_way(before),
        ascending_by(a, before),
        ascending_by(b, before),
        a.to_set() == b.to_set(),
    ensures
        a == b,
    decreases a.len(),
{
    lemma_ascending_distinct(a, before);
    lemma_ascending_distinct(b, before);
    a.unique_seq_to_set();
    b.unique_seq_to_set();
    if a.len() > 0 {
        let x = a.last();
        let y = b.last();
        assert(a.to_set().contains(x));
        assert(b.to_set().contains(y));
        if x != y {
            // Each of the two is in the other list, before its last item.
            let i = choose|i: int| 0 <= i < b.len() && b[i] == x;
            let j = choose|j: int| 0 <= j < a.len() && a[j] == y;
            assert(before(b[i], y));
            assert(before(a[j], x));
        }
        lemma_drop_last_to_set(a);
        lemma_drop_last_to_set(b);
        lemma_ascending_unique(a.drop_last(), b.drop_last(), before);
        assert(a =~= a.drop_last().push(x));
        assert(b =~= b.drop_last().push(y));
    }
}

/// The items of a list with one more item put in are those of the list and that item.
pub proof fn lemma_insert_to_set<A>(items: Seq<A>, at: int, item: A)
    requires
        0 <= at <= items.len(),
    ensures
        items.insert(at, item).to_set() == items.to_set().insert(item),
{
    let longer = items.insert(at, item);
    assert forall|x: A| longer.to_set().contains(x) <==> items.to_set().insert(item).contains(
        x,
    ) by {
        if longer.to_set().contains(x) {
            let k = choose|k: int| 0 <= k < longer.len() && longer[k] == x;
            if k != at {
                let earlier = if k < at {
                    k
                } else {
                    k - 1
                };
                assert(items[earlier] == x);
            }
        }
        if items.to_set().contains(x) {
            let k = choose|k: int| 0 <= k < items.len() && items[k] == x;
            let later = if k < at {
                k
            } else {
                k + 1
            };
            assert(longer[later] == x);
        }
        if x == item {
            assert(longer[at] == x);
        }
    }
    assert(longer.to_set() =~= items.to_set().insert(item));
}

/// Putting an item into a list in ascending order, after the items that
/// come before it and before those that it comes before, leaves the list
/// in ascending order.
pub proof fn lemma_insert_ascending<A>(
    items: Seq<A>,
    at: int,
    item: A,
    before: spec_fn(A, A) -> bool,
)
    requires
        ascending_by(items, before),
        0 <= at <= items.len(),
        forall|i: int| 0 <= i < at ==> before(#[trigger] items[i], item),
        forall|i: int| at <= i < items.len() ==> before(item, #[trigger] items[i]),
    ensures
        ascending_by(items.insert(at, item), before),
{
    let longer = items.insert(at, item);
    assert forall|i: int, j: int| 0 <= i < j < longer.len() implies before(
        longer[i],
        longer[j],
    ) by {
        let earlier = if i < at {
            i
        } else {
            i - 1
        };
        let later = if j < at {
            j
        } else {
            j - 1
        };
        if i == at {
            assert(longer[j] == items[later]);
        } else if j == at {
            assert(longer[i] == items[earlier]);
        } else {
            assert(longer[i] == items[earlier] && longer[j] == items[later]);
        }
    }
}

} // verus!
