use jellycord::catalog::{CatalogItem, ItemKind};
use jellycord::hierarchy::{
    descendant_episodes, episodes_below, is_unresolved, lone_seasons, orphans, resolve, seasons_among,
    seasons_of, tops, AnnouncementGroup,
};

fn item(kind: ItemKind, id: &str) -> CatalogItem {
    CatalogItem::new(kind, id, id)
}

fn season(id: &str, series: &str) -> CatalogItem {
    let mut it = item(ItemKind::Season, id);
    it.series_id = Some(series.to_string());
    it
}

fn episode(id: &str, season: Option<&str>, series: &str) -> CatalogItem {
    let mut it = item(ItemKind::Episode, id);
    it.season_id = season.map(|s| s.to_string());
    it.series_id = Some(series.to_string());
    it
}

fn single(root: usize) -> AnnouncementGroup {
    AnnouncementGroup { root, seasons: vec![], episodes: vec![] }
}

#[test]
fn movies_and_series_are_groups_of_their_own() {
    let snapshot = vec![item(ItemKind::Movie, "m1"), item(ItemKind::Series, "s1"), item(ItemKind::Movie, "m2")];
    let groups = resolve(&snapshot, &vec![2, 1, 0]);
    assert_eq!(groups, vec![single(2), single(1), single(0)]);
}

#[test]
fn unresolved_episode_defers_the_whole_pass() {
    let snapshot = vec![
        item(ItemKind::Movie, "m1"),
        season("se1", "old"),
        episode("e1", None, "old"),
    ];
    let found = vec![2, 1, 0];
    assert!(is_unresolved(&snapshot, &found));
    assert_eq!(resolve(&snapshot, &found), vec![]);
}

#[test]
fn unresolved_special_defers_the_whole_pass() {
    let mut special = item(ItemKind::Special, "sp");
    special.season_id = None;
    let snapshot = vec![item(ItemKind::Movie, "m1"), special];
    assert_eq!(resolve(&snapshot, &vec![1, 0]), vec![]);
}

#[test]
fn unresolved_episode_that_is_no_candidate_defers_nothing() {
    let snapshot = vec![item(ItemKind::Movie, "m1"), episode("e1", None, "old")];
    assert_eq!(resolve(&snapshot, &vec![0]), vec![single(0)]);
}

#[test]
fn episodes_join_the_group_of_their_new_season() {
    let snapshot = vec![
        season("se1", "old"),
        episode("e1", Some("se1"), "old"),
        episode("e2", Some("se1"), "old"),
    ];
    let groups = resolve(&snapshot, &vec![2, 1, 0]);
    assert_eq!(groups, vec![AnnouncementGroup { root: 0, seasons: vec![], episodes: vec![2, 1] }]);
}

#[test]
fn episode_of_an_announced_season_stands_alone() {
    let snapshot = vec![
        season("se1", "old"),
        episode("e1", Some("se1"), "old"),
        episode("e2", Some("se1"), "old"),
    ];
    let groups = resolve(&snapshot, &vec![2]);
    assert_eq!(groups, vec![single(2)]);
}

#[test]
fn season_of_a_new_series_is_covered_by_the_series() {
    let snapshot = vec![
        item(ItemKind::Series, "s1"),
        season("se1", "s1"),
        episode("e1", Some("se1"), "s1"),
        season("se2", "s1"),
        episode("e2", Some("se2"), "s1"),
    ];
    let groups = resolve(&snapshot, &vec![4, 3, 2, 1, 0]);
    assert_eq!(
        groups,
        vec![AnnouncementGroup { root: 0, seasons: vec![3, 1], episodes: vec![4, 2] }]
    );
}

#[test]
fn groups_come_orphans_first_then_seasons_then_movies_and_series() {
    let snapshot = vec![
        item(ItemKind::Movie, "m1"),
        season("se1", "old"),
        episode("e1", Some("se1"), "old"),
        episode("e9", Some("gone"), "old"),
        item(ItemKind::Series, "s2"),
        episode("e8", Some("gone"), "old"),
    ];
    let groups = resolve(&snapshot, &vec![5, 4, 3, 2, 1, 0]);
    assert_eq!(
        groups,
        vec![
            single(5),
            single(3),
            AnnouncementGroup { root: 1, seasons: vec![], episodes: vec![2] },
            single(4),
            single(0),
        ]
    );
}

#[test]
fn season_without_series_identifier_stands_alone() {
    let snapshot = vec![item(ItemKind::Series, "s1"), item(ItemKind::Season, "se1")];
    let groups = resolve(&snapshot, &vec![1, 0]);
    assert_eq!(groups, vec![single(1), single(0)]);
}

#[test]
fn positions_outside_the_listing_are_left_out() {
    let snapshot = vec![item(ItemKind::Movie, "m1")];
    assert_eq!(resolve(&snapshot, &vec![7, 0]), vec![single(0)]);
}

#[test]
fn every_candidate_lands_in_exactly_one_group() {
    let snapshot = vec![
        item(ItemKind::Series, "s1"),
        season("se1", "s1"),
        episode("e1", Some("se1"), "s1"),
        season("se2", "old"),
        episode("e2", Some("se2"), "old"),
        episode("e3", Some("seen"), "old"),
        item(ItemKind::Movie, "m"),
    ];
    let found: Vec<usize> = vec![6, 5, 4, 3, 2, 1, 0];
    let groups = resolve(&snapshot, &found);
    let mut members: Vec<usize> = Vec::new();
    for group in &groups {
        members.push(group.root);
        members.extend(group.seasons.iter());
        members.extend(group.episodes.iter());
    }
    members.sort();
    assert_eq!(members, vec![0, 1, 2, 3, 4, 5, 6]);
}

#[test]
fn descendants_are_taken_from_the_whole_listing() {
    let snapshot = vec![
        item(ItemKind::Series, "s1"),
        season("se1", "s1"),
        episode("e1", Some("se1"), "s1"),
        season("se2", "s1"),
        episode("e2", Some("se2"), "s1"),
        episode("x", Some("other"), "s9"),
    ];
    assert_eq!(descendant_episodes(&snapshot, 0), vec![2, 4]);
    assert_eq!(descendant_episodes(&snapshot, 1), vec![2]);
    assert_eq!(descendant_episodes(&snapshot, 3), vec![4]);
    assert_eq!(descendant_episodes(&snapshot, 2), Vec::<usize>::new());
    assert_eq!(descendant_episodes(&snapshot, 99), Vec::<usize>::new());
}

#[test]
fn episode_of_a_new_series_is_covered_even_if_its_season_was_announced() {
    let snapshot = vec![
        item(ItemKind::Series, "s1"),
        season("se1", "s1"),
        episode("e1", Some("se1"), "s1"),
    ];
    let groups = resolve(&snapshot, &vec![2, 0]);
    assert_eq!(groups, vec![AnnouncementGroup { root: 0, seasons: vec![], episodes: vec![2] }]);
}

#[test]
fn the_parts_of_a_resolution_can_be_asked_for_one_by_one() {
    let snapshot = vec![
        item(ItemKind::Series, "s1"),
        season("se1", "s1"),
        episode("e1", Some("se1"), "s1"),
        season("se2", "old"),
        episode("e2", Some("se2"), "old"),
        episode("e3", Some("gone"), "old"),
        item(ItemKind::Movie, "m"),
    ];
    let found: Vec<usize> = vec![6, 5, 4, 3, 2, 1, 0];
    assert_eq!(orphans(&snapshot, &found), vec![5]);
    assert_eq!(lone_seasons(&snapshot, &found), vec![3]);
    assert_eq!(tops(&snapshot, &found), vec![6, 0]);
    assert_eq!(seasons_among(&snapshot, &found, 0), vec![1]);
    assert_eq!(seasons_among(&snapshot, &vec![4, 2], 0), Vec::<usize>::new());
    assert_eq!(seasons_of(&snapshot, 0), vec![1]);
    assert_eq!(seasons_of(&snapshot, 3), Vec::<usize>::new());
    assert_eq!(episodes_below(&snapshot, &found, 0), vec![2]);
    assert_eq!(episodes_below(&snapshot, &found, 3), vec![4]);
    assert_eq!(episodes_below(&snapshot, &found, 6), Vec::<usize>::new());
}

#[test]
fn special_is_grouped_like_an_episode() {
    let mut special = item(ItemKind::Special, "sp");
    special.season_id = Some("se1".to_string());
    let snapshot = vec![season("se1", "old"), special];
    let groups = resolve(&snapshot, &vec![1, 0]);
    assert_eq!(groups, vec![AnnouncementGroup { root: 0, seasons: vec![], episodes: vec![1] }]);
}
