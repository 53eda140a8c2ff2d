//! Comparing a listing with the record of a subscriber.

use crate::catalog::{items_at, positions, CatalogItem};
use crate::seen::SeenSet;
use crate::text::texts;
use vstd::prelude::*;

verus! {

/// The test that a position of `snapshot` holds an item that was not announced.
pub open spec fn unseen_at(snapshot: Seq<CatalogItem>, seen: Set<Seq<char>>) -> spec_fn(
    usize,
) -> bool {
    |p: usize| p < snapshot.len() && !seen.contains(snapshot[p as int].id@)
}

/// The test that an item was not announced.
pub open spec fn unseen_item(seen: Set<Seq<char>>) -> spec_fn(CatalogItem) -> bool {
    |item: CatalogItem| !seen.contains(item.id@)
}

/// The positions of the unannounced items, in the order of the listing.
pub open spec fn discovered(snapshot: Seq<CatalogItem>, seen: Set<Seq<char>>) -> Seq<usize> {
    positions(snapshot.len()).filter(unseen_at(snapshot, seen))
}

/// The candidates of a pass: the positions of the unannounced items, the most
/// recently listed first.
pub open spec fn candidates(snapshot: Seq<CatalogItem>, seen: Set<Seq<char>>) -> Seq<usize> {
    discovered(snapshot, seen).reverse()
}

/// The identifiers of all items of a listing, in its order.
pub open spec fn listed_ids(snapshot: Seq<CatalogItem>) -> Seq<Seq<char>> {
    snapshot.map_values(|item: CatalogItem| item.id@)
}

/// What the comparison of a listing with the record of a subscriber gives.
#[derive(Clone, Debug, PartialEq, Eq)]
pub enum Reconciliation {
    /// Nothing was ever recorded for the subscriber: nothing is announced, and
    /// the identifiers given here, those of the whole listing, are recorded.
    Bootstrap(Vec<String>),
    /// The positions of the items to announce, the most recently listed first.
    Candidates(Vec<usize>),
}

/// The same positions in the opposite order.
pub fn reversed(list: &Vec<usize>) -> (turned: Vec<usize>)
    ensures
        turned@ == list@.reverse(),
{
    let mut turned: Vec<usize> = Vec::new();
    let mut i: usize = list.len();
    while i > 0
        invariant
            i <= list.len(),
            turned@.len() == list.len() - i,
            forall|j: int| 0 <= j < turned@.len() ==> turned@[j] == list@[list.len() - 1 - j],
        decreases i,
    {
        i -= 1;
        turned.push(list[i]);
    }
    assert(turned@ =~= list@.reverse());
    turned
}

/// The identifiers of all items of a listing.
pub fn all_ids(snapshot: &Vec<CatalogItem>) -> (ids: Vec<String>)
    ensures
        texts(ids@) == listed_ids(snapshot@),
{
    let mut ids: Vec<String> = Vec::new();
    let mut i: usize = 0;
    while i < snapshot.len()
        invariant
            i <= snapshot.len(),
            ids@.len() == i,
            forall|j: int| 0 <= j < i ==> ids@[j]@ == snapshot@[j].id@,
        decreases snapshot.len() - i,
    {
        ids.push(snapshot[i].id.clone());
        i += 1;
    }
    assert(texts(ids@) =~= listed_ids(snapshot@));
    ids
}

/// The positions of the unannounced items in the order of the listing.
pub fn discover(snapshot: &Vec<CatalogItem>, seen: &SeenSet) -> (found: Vec<usize>)
    ensures
        found@ == discovered(snapshot@, seen@),
{
    let mut found: Vec<usize> = Vec::new();
    let mut i: usize = 0;
    let ghost all = positions(snapshot@.len());
    let ghost unseen = unseen_at(snapshot@, seen@);
    proof {
        reveal(Seq::filter);
        assert(all.take(0).filter(unseen) =~= Seq::<usize>::empty());
    }
    while i < snapshot.len()
        invariant
            i <= snapshot.len(),
            all == positions(snapshot@.len()),
            unseen == unseen_at(snapshot@, seen@),
            found@ == all.take(i as int).filter(unseen),
        decreases snapshot.len() - i,
    {
        proof {
            assert(all.take(i + 1) =~= all.take(i as int).push(i));
            all.take(i as int).lemma_filter_push(i, unseen);
        }
        if !seen.contains(&snapshot[i].id) {
            found.push(i);
        }
        i += 1;
    }
    assert(all.take(snapshot@.len() as int) =~= all);
    found
}

/// Compares a listing with the record of a subscriber.
///
/// A subscriber with an empty record is new: nothing is announced to it, and
/// the whole listing is to be recorded. Otherwise the items whose identifier
/// is not recorded are the candidates, the most recently listed first.
pub fn reconcile(snapshot: &Vec<CatalogItem>, seen: &SeenSet) -> (outcome: Reconciliation)
    ensures
        match outcome {
            Reconciliation::Bootstrap(ids) => seen@ == Set::<Seq<char>>::empty() && texts(ids@)
                == listed_ids(snapshot@),
            Reconciliation::Candidates(found) => seen@ != Set::<Seq<char>>::empty() && found@
                == candidates(snapshot@, seen@),
        },
{
    if seen.is_empty() {
        Reconciliation::Bootstrap(all_ids(snapshot))
    } else {
        let found = discover(snapshot, seen);
        Reconciliation::Candidates(reversed(&found))
    }
}

/// The unannounced positions of the first `n` items stand for the unannounced
/// items among them, in the same order.
proof fn lemma_discovered_prefix(snapshot: Seq<CatalogItem>, seen: Set<Seq<char>>, n: nat)
    requires
        n <= snapshot.len() <= usize::MAX,
    ensures
        items_at(snapshot, positions(n).filter(unseen_at(snapshot, seen))) == snapshot.take(
            n as int,
        ).filter(unseen_item(seen)),
        forall|j: int|
            0 <= j < positions(n).filter(unseen_at(snapshot, seen)).len() ==> (#[trigger] positions(
                n,
            ).filter(unseen_at(snapshot, seen))[j]) < n,
    decreases n,
{
    reveal(Seq::filter);
    let at = unseen_at(snapshot, seen);
    let of = unseen_item(seen);
    if n == 0 {
        assert(positions(0).filter(at) =~= Seq::<usize>::empty());
        assert(snapshot.take(0).filter(of) =~= Seq::<CatalogItem>::empty());
        assert(items_at(snapshot, Seq::<usize>::empty()) =~= Seq::<CatalogItem>::empty());
    } else {
        let m = (n - 1) as nat;
        lemma_discovered_prefix(snapshot, seen, m);
        assert(positions(n) =~= positions(m).push(m as usize));
        positions(m).lemma_filter_push(m as usize, at);
        assert(snapshot.take(n as int) =~= snapshot.take(m as int).push(snapshot[m as int]));
        snapshot.take(m as int).lemma_filter_push(snapshot[m as int], of);
        let before = positions(m).filter(at);
        if at(m as usize) {
            assert(items_at(snapshot, before.push(m as usize)) =~= items_at(snapshot, before).push(
                snapshot[m as int],
            ));
        }
    }
}

/// The unannounced positions of the first `n` items stand in ascending order.
proof fn lemma_discovered_ascends(snapshot: Seq<CatalogItem>, seen: Set<Seq<char>>, n: nat)
    requires
        n <= snapshot.len() <= usize::MAX,
    ensures
        forall|a: int, b: int|
            0 <= a < b < positions(n).filter(unseen_at(snapshot, seen)).len() ==> positions(
                n,
            ).filter(unseen_at(snapshot, seen))[a] < positions(n).filter(
                unseen_at(snapshot, seen),
            )[b],
    decreases n,
{
    reveal(Seq::filter);
    let at = unseen_at(snapshot, seen);
    if n > 0 {
        let m = (n - 1) as nat;
        lemma_discovered_ascends(snapshot, seen, m);
        lemma_discovered_prefix(snapshot, seen, m);
        assert(positions(n) =~= positions(m).push(m as usize));
        positions(m).lemma_filter_push(m as usize, at);
    }
}

/// The candidates of a pass are exactly the items of the listing whose
/// identifier is not recorded: before the reversal they stand in the order of
/// the listing, none is left out and none is added.
pub proof fn lemma_candidates_are_the_unseen_items(
    snapshot: Seq<CatalogItem>,
    seen: Set<Seq<char>>,
)
    requires
        snapshot.len() <= usize::MAX,
    ensures
        candidates(snapshot, seen) == discovered(snapshot, seen).reverse(),
        items_at(snapshot, discovered(snapshot, seen)) == snapshot.filter(unseen_item(seen)),
        forall|j: int|
            0 <= j < candidates(snapshot, seen).len() ==> (#[trigger] candidates(snapshot, seen)[j])
                < snapshot.len() && !seen.contains(
                snapshot[candidates(snapshot, seen)[j] as int].id@,
            ),
        forall|i: int|
            0 <= i < snapshot.len() && !seen.contains(snapshot[i].id@) ==> candidates(
                snapshot,
                seen,
            ).contains(i as usize),
        candidates(snapshot, seen).no_duplicates(),
{
    lemma_discovered_prefix(snapshot, seen, snapshot.len());
    lemma_discovered_ascends(snapshot, seen, snapshot.len());
    assert(snapshot.take(snapshot.len() as int) =~= snapshot);
    let found = discovered(snapshot, seen);
    let turned = candidates(snapshot, seen);
    let at = unseen_at(snapshot, seen);
    assert forall|a: int, b: int| 0 <= a < b < turned.len() implies turned[a] != turned[b] by {
        assert(turned[a] == found[found.len() - 1 - a]);
        assert(turned[b] == found[found.len() - 1 - b]);
    }
    assert forall|j: int| 0 <= j < turned.len() implies (#[trigger] turned[j]) < snapshot.len()
        && !seen.contains(snapshot[turned[j] as int].id@) by {
        let k = found.len() - 1 - j;
        assert(turned[j] == found[k]);
        positions(snapshot.len()).lemma_filter_pred(at, k);
    }
    assert forall|i: int|
        0 <= i < snapshot.len() && !seen.contains(snapshot[i].id@) implies turned.contains(
        i as usize,
    ) by {
        let all = positions(snapshot.len());
        assert(all[i] == i as usize);
        all.lemma_filter_contains(at, i);
        let k = choose|k: int| 0 <= k < found.len() && found[k] == i as usize;
        assert(turned[found.len() - 1 - k] == found[k]);
    }
}

/// Reconciling again against the same listing and the same record gives the
/// same candidates: they depend on nothing but the listing and the set of
/// recorded identifiers.
pub proof fn lemma_reconciliation_repeats(
    snapshot: Seq<CatalogItem>,
    first: SeenSet,
    second: SeenSet,
)
    requires
        first@ == second@,
    ensures
        candidates(snapshot, first@) == candidates(snapshot, second@),
{
}

/// Once the identifiers that a bootstrap hands out are recorded, every item of
/// the listing counts as announced and the listing has no candidate left.
pub proof fn lemma_bootstrap_records_everything(
    snapshot: Seq<CatalogItem>,
    ids: Seq<String>,
    seen: Set<Seq<char>>,
)
    requires
        snapshot.len() <= usize::MAX,
        texts(ids) == listed_ids(snapshot),
    ensures
        forall|i: int|
            0 <= i < snapshot.len() ==> seen.union(crate::seen::id_set(ids)).contains(
                #[trigger] snapshot[i].id@,
            ),
        candidates(snapshot, seen.union(crate::seen::id_set(ids))) == Seq::<usize>::empty(),
{
    let after = seen.union(crate::seen::id_set(ids));
    assert forall|i: int| 0 <= i < snapshot.len() implies after.contains(
        #[trigger] snapshot[i].id@,
    ) by {
        assert(texts(ids).len() == ids.len());
        assert(listed_ids(snapshot).len() == snapshot.len());
        assert(texts(ids)[i] == listed_ids(snapshot)[i]);
        assert(ids[i]@ == snapshot[i].id@);
    }
    let all = positions(snapshot.len());
    let at = unseen_at(snapshot, after);
    assert forall|i: int| 0 <= i < all.len() implies !at(#[trigger] all[i]) by {
        assert(after.contains(snapshot[i].id@));
    }
    all.lemma_all_neg_filter_empty(at);
}

} // verus!
