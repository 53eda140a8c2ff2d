use jellycord::catalog::{CatalogItem, ItemKind};
use jellycord::text::{decimal_text, join, two_digit_text};
use jellycord::title::{anchor, compose_title, has_char, note_years, strip_year_tags, year};

fn dated(kind: ItemKind, name: &str, premiere: Option<&str>, end: Option<&str>) -> CatalogItem {
    let mut item = CatalogItem::new(kind, "id", name);
    item.premiere_date = premiere.map(|d| d.to_string());
    item.end_date = end.map(|d| d.to_string());
    item
}

#[test]
fn years_that_differ_are_written_as_a_range() {
    let item = dated(ItemKind::Series, "Foo", Some("2019-03-01T00:00:00Z"), Some("2021-05-01T00:00:00Z"));
    assert_eq!(note_years(&item), "(2019-2021)");
}

#[test]
fn same_year_is_written_once() {
    let item = dated(ItemKind::Series, "Foo", Some("2019-03-01"), Some("2019-12-24"));
    assert_eq!(note_years(&item), "(2019)");
}

#[test]
fn premiere_alone_gives_its_year() {
    let item = dated(ItemKind::Movie, "Foo", Some("1999-03-31"), None);
    assert_eq!(note_years(&item), "(1999)");
}

#[test]
fn continuing_series_has_an_open_range() {
    let mut item = dated(ItemKind::Series, "Foo", Some("2020-01-01"), None);
    item.status = Some("Continuing".to_string());
    assert_eq!(note_years(&item), "(2020-)");
}

#[test]
fn continuing_series_without_premiere_has_question_marks() {
    let mut item = dated(ItemKind::Series, "Foo", None, None);
    item.status = Some("Continuing".to_string());
    assert_eq!(note_years(&item), "(????-)");
}

#[test]
fn both_dates_win_over_the_status() {
    let mut item = dated(ItemKind::Series, "Foo", Some("2018-01-01"), Some("2020-01-01"));
    item.status = Some("Continuing".to_string());
    assert_eq!(note_years(&item), "(2018-2020)");
}

#[test]
fn ended_status_is_no_open_range() {
    let mut item = dated(ItemKind::Series, "Foo", Some("2018-01-01"), None);
    item.status = Some("Ended".to_string());
    assert_eq!(note_years(&item), "(2018)");
}

#[test]
fn production_year_stands_in_for_a_missing_premiere() {
    let mut item = dated(ItemKind::Movie, "Foo", None, None);
    item.production_year = Some(2005);
    assert_eq!(note_years(&item), "(2005)");
}

#[test]
fn nothing_known_gives_three_question_marks() {
    let item = dated(ItemKind::Movie, "Foo", None, None);
    assert_eq!(note_years(&item), "(???)");
}

#[test]
fn year_is_the_first_four_characters() {
    assert_eq!(year(&"2019-03-01".to_string()), "2019");
    assert_eq!(year(&"2019".to_string()), "2019");
    assert_eq!(year(&"19".to_string()), "19");
    assert_eq!(year(&String::new()), "");
}

#[test]
fn year_in_parentheses_is_taken_out_of_a_name() {
    assert_eq!(strip_year_tags(&"Foo (2019)".to_string()), "Foo");
    assert_eq!(strip_year_tags(&"Foo (2019) Bar (1999)".to_string()), "Foo Bar");
}

#[test]
fn other_parentheses_stay_in_a_name() {
    assert_eq!(strip_year_tags(&"Foo (US)".to_string()), "Foo (US)");
    assert_eq!(strip_year_tags(&"Foo(2019)".to_string()), "Foo(2019)");
    assert_eq!(strip_year_tags(&"Foo (20190)".to_string()), "Foo (20190)");
    assert_eq!(strip_year_tags(&"Foo".to_string()), "Foo");
}

#[test]
fn title_replaces_the_year_in_the_name_by_the_computed_one() {
    let item = dated(ItemKind::Series, "Foo (2019)", Some("2019-01-01"), Some("2021-01-01"));
    assert_eq!(item.to_string(), "Foo (2019-2021)");
}

#[test]
fn movie_title_is_name_and_year() {
    let item = dated(ItemKind::Movie, "Heat", Some("1995-12-15"), None);
    assert_eq!(item.to_string(), "Heat (1995)");
}

#[test]
fn season_title_names_series_and_season() {
    let mut item = dated(ItemKind::Season, "Season 2", Some("2020-01-01"), None);
    item.series_name = Some("Foo (2019)".to_string());
    assert_eq!(item.to_string(), "Foo (2020) - Season 2");
}

#[test]
fn season_of_unknown_series_is_shown_with_question_marks() {
    let item = dated(ItemKind::Season, "Season 2", None, None);
    assert_eq!(item.to_string(), "??? (???) - Season 2");
}

#[test]
fn episode_title_carries_its_number() {
    let mut item = dated(ItemKind::Episode, "Pilot", Some("2020-01-01"), None);
    item.series_name = Some("Foo".to_string());
    item.parent_index_number = Some(1);
    item.index_number = Some(2);
    assert_eq!(item.to_string(), "Foo (2020) - S01E02 - Pilot");
    item.index_number_end = Some(3);
    assert_eq!(item.to_string(), "Foo (2020) - S01E02-03 - Pilot");
}

#[test]
fn episode_without_numbers_counts_from_zero() {
    let mut item = dated(ItemKind::Episode, "Pilot", None, None);
    item.series_name = Some("Foo".to_string());
    assert_eq!(item.to_string(), "Foo (???) - S00E00 - Pilot");
}

#[test]
fn special_is_marked_as_unknown_media_type() {
    let mut item = dated(ItemKind::Special, "Making of (2019)", Some("2019-01-01"), None);
    item.series_name = Some("Foo".to_string());
    assert_eq!(item.to_string(), "Making of (2019) (2019) (unknown media type)");
}

#[test]
fn compose_title_uses_the_name_it_is_given() {
    let item = dated(ItemKind::Movie, "ignored", None, None);
    assert_eq!(compose_title(&item, &"Shown".to_string(), &"(1)".to_string()), "Shown (1)");
}

#[test]
fn picture_is_that_of_the_season_or_else_of_the_item() {
    let mut item = CatalogItem::new(ItemKind::Episode, "e1", "Pilot");
    assert_eq!(anchor(&item), "e1");
    item.season_id = Some("se1".to_string());
    assert_eq!(anchor(&item), "se1");
}

#[test]
fn has_char_finds_a_character() {
    assert!(has_char("a(b", '('));
    assert!(!has_char("ab", '('));
    assert!(!has_char("", '('));
    assert!(has_char("ä(", '('));
}

#[test]
fn numbers_are_written_in_decimal() {
    assert_eq!(decimal_text(0), "0");
    assert_eq!(decimal_text(7), "7");
    assert_eq!(decimal_text(1234567890), "1234567890");
    assert_eq!(decimal_text(u128::MAX), u128::MAX.to_string());
    assert_eq!(two_digit_text(0), "00");
    assert_eq!(two_digit_text(9), "09");
    assert_eq!(two_digit_text(10), "10");
    assert_eq!(two_digit_text(123), "123");
}

#[test]
fn join_puts_the_separator_between_the_parts() {
    assert_eq!(join(&vec![], ", "), "");
    assert_eq!(join(&vec!["a".to_string()], ", "), "a");
    assert_eq!(join(&vec!["a".to_string(), "b".to_string(), "c".to_string()], ", "), "a, b, c");
}

#[test]
fn kinds_are_named_as_the_catalog_names_them() {
    assert_eq!(ItemKind::Movie.to_string(), "Movie");
    assert_eq!(ItemKind::Series.to_string(), "Series");
    assert_eq!(ItemKind::Season.to_string(), "Season");
    assert_eq!(ItemKind::Episode.to_string(), "Episode");
    assert_eq!(ItemKind::Special.to_string(), "Special");
}
