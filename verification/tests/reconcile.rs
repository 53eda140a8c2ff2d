use jellycord::catalog::{CatalogItem, ItemKind};
use jellycord::reconcile::{all_ids, discover, reconcile, reversed, Reconciliation};
use jellycord::seen::SeenSet;

fn movie(id: &str) -> CatalogItem {
    CatalogItem::new(ItemKind::Movie, id, id)
}

fn listing(ids: &[&str]) -> Vec<CatalogItem> {
    ids.iter().map(|id| movie(id)).collect()
}

fn seen(ids: &[&str]) -> SeenSet {
    SeenSet::from_ids(ids.iter().map(|id| id.to_string()).collect())
}

#[test]
fn candidates_are_the_unseen_items_in_listing_order_before_reversal() {
    let snapshot = listing(&["a", "b", "c", "d", "e"]);
    let record = seen(&["b", "d"]);
    assert_eq!(discover(&snapshot, &record), vec![0, 2, 4]);
}

#[test]
fn candidates_come_most_recently_listed_first() {
    let snapshot = listing(&["a", "b", "c", "d", "e"]);
    let record = seen(&["b", "d"]);
    assert_eq!(reconcile(&snapshot, &record), Reconciliation::Candidates(vec![4, 2, 0]));
}

#[test]
fn seen_items_are_never_candidates() {
    let snapshot = listing(&["a", "b", "c"]);
    let record = seen(&["a", "b", "c"]);
    assert_eq!(reconcile(&snapshot, &record), Reconciliation::Candidates(vec![]));
}

#[test]
fn identifiers_outside_the_listing_change_nothing() {
    let snapshot = listing(&["a", "b"]);
    let record = seen(&["zzz"]);
    assert_eq!(reconcile(&snapshot, &record), Reconciliation::Candidates(vec![1, 0]));
}

#[test]
fn an_item_listed_twice_is_a_candidate_twice() {
    let snapshot = listing(&["a", "b", "a"]);
    let record = seen(&["b"]);
    assert_eq!(reconcile(&snapshot, &record), Reconciliation::Candidates(vec![2, 0]));
}

#[test]
fn reconciling_again_gives_the_same_candidates() {
    let snapshot = listing(&["a", "b", "c", "d"]);
    let record = seen(&["c"]);
    let first = reconcile(&snapshot, &record);
    let second = reconcile(&snapshot, &record);
    assert_eq!(first, second);
    let shuffled = seen(&["c", "c"]);
    assert_eq!(reconcile(&snapshot, &shuffled), first);
}

#[test]
fn empty_record_bootstraps_with_every_identifier() {
    let snapshot = listing(&["a", "b", "c"]);
    let record = SeenSet::new();
    let outcome = reconcile(&snapshot, &record);
    assert_eq!(
        outcome,
        Reconciliation::Bootstrap(vec!["a".to_string(), "b".to_string(), "c".to_string()])
    );
}

#[test]
fn after_a_bootstrap_every_item_counts_as_seen() {
    let snapshot = listing(&["a", "b", "c"]);
    let mut record = SeenSet::new();
    match reconcile(&snapshot, &record) {
        Reconciliation::Bootstrap(ids) => record.mark_all(&ids),
        Reconciliation::Candidates(_) => panic!("a new subscriber is bootstrapped"),
    }
    for item in &snapshot {
        assert!(record.contains(&item.id));
    }
    assert_eq!(reconcile(&snapshot, &record), Reconciliation::Candidates(vec![]));
}

#[test]
fn empty_listing_and_empty_record_bootstrap_nothing() {
    let snapshot: Vec<CatalogItem> = Vec::new();
    assert_eq!(reconcile(&snapshot, &SeenSet::new()), Reconciliation::Bootstrap(vec![]));
}

#[test]
fn all_ids_lists_every_identifier_in_order() {
    let snapshot = listing(&["x", "y"]);
    assert_eq!(all_ids(&snapshot), vec!["x".to_string(), "y".to_string()]);
}

#[test]
fn reversed_turns_a_list_around() {
    assert_eq!(reversed(&vec![1, 2, 3]), vec![3, 2, 1]);
    assert_eq!(reversed(&vec![]), Vec::<usize>::new());
}

#[test]
fn seen_set_only_grows_and_marking_twice_is_harmless() {
    let mut record = SeenSet::new();
    assert!(record.is_empty());
    record.mark_seen(&"a".to_string());
    record.mark_seen(&"a".to_string());
    assert!(!record.is_empty());
    assert!(record.contains(&"a".to_string()));
    assert!(!record.contains(&"b".to_string()));
    record.mark_all(&vec!["b".to_string(), "c".to_string()]);
    assert!(record.contains(&"a".to_string()));
    assert!(record.contains(&"b".to_string()));
    assert!(record.contains(&"c".to_string()));
}
