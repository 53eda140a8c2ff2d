use jellycord::announce::{
    announce, commit_ids, describe, show_list, show_optional, show_rating, Announcement, Field,
};
use jellycord::catalog::{CatalogItem, ItemKind, MediaStream, StreamKind};
use jellycord::hierarchy::AnnouncementGroup;
use jellycord::subscriber::Instance;

fn subscriber() -> Instance {
    Instance {
        active_channel: 1,
        channel_id: 42,
        domain: "https://media.example".to_string(),
        token: "KEY".to_string(),
        user_id: "u1".to_string(),
    }
}

fn stream(kind: StreamKind, language: Option<&str>, height: Option<u32>) -> MediaStream {
    MediaStream { kind, language: language.map(|l| l.to_string()), height, is_interlaced: false }
}

fn episode(id: &str, season: &str, number: u32) -> CatalogItem {
    let mut item = CatalogItem::new(ItemKind::Episode, id, id);
    item.season_id = Some(season.to_string());
    item.series_id = Some("s1".to_string());
    item.series_name = Some("Foo".to_string());
    item.parent_index_number = Some(1);
    item.index_number = Some(number);
    item
}

fn season(id: &str) -> CatalogItem {
    let mut item = CatalogItem::new(ItemKind::Season, id, "Season 1");
    item.series_id = Some("s1".to_string());
    item.series_name = Some("Foo".to_string());
    item
}

#[test]
fn leaf_announcement_speaks_for_the_item_alone() {
    let mut movie = CatalogItem::new(ItemKind::Movie, "m1", "Heat (1995)");
    movie.premiere_date = Some("1995-12-15".to_string());
    movie.community_rating = Some(830);
    movie.run_time_ticks = Some(102_000_000_000);
    movie.media_streams = Some(vec![
        stream(StreamKind::Video, None, Some(1080)),
        stream(StreamKind::Audio, Some("eng"), None),
        stream(StreamKind::Audio, Some("ger"), None),
        stream(StreamKind::Subtitle, Some("eng"), None),
    ]);
    let snapshot = vec![movie];
    let message = announce(&subscriber(), &snapshot, 0);
    assert_eq!(
        message,
        Announcement {
            title: "Heat (1995)".to_string(),
            image_url: "https://media.example/Items/m1/Images/Primary?Quality=100".to_string(),
            description: None,
            rating: "8.30".to_string(),
            runtime: "02:50:00".to_string(),
            resolution: "1080p".to_string(),
            audio_languages: "eng, ger".to_string(),
            subtitle_languages: Some("eng".to_string()),
        }
    );
}

#[test]
fn leaf_with_nothing_known_shows_question_marks() {
    let snapshot = vec![CatalogItem::new(ItemKind::Movie, "m1", "Heat")];
    let message = announce(&subscriber(), &snapshot, 0);
    assert_eq!(message.title, "Heat (???)");
    assert_eq!(message.description, None);
    assert_eq!(message.rating, "?");
    assert_eq!(message.runtime, "?");
    assert_eq!(message.resolution, "?");
    assert_eq!(message.audio_languages, "?");
    assert_eq!(message.subtitle_languages, None);
}

#[test]
fn leaf_with_rating_zero_is_unrated() {
    let mut movie = CatalogItem::new(ItemKind::Movie, "m1", "Heat");
    movie.community_rating = Some(0);
    let message = announce(&subscriber(), &vec![movie], 0);
    assert_eq!(message.rating, "?");
}

#[test]
fn episode_picture_is_that_of_its_season() {
    let snapshot = vec![episode("e1", "se1", 1)];
    let message = announce(&subscriber(), &snapshot, 0);
    assert_eq!(message.image_url, "https://media.example/Items/se1/Images/Primary?Quality=100");
    assert_eq!(message.title, "Foo (???) - S01E01 - e1");
}

#[test]
fn season_is_summed_up_over_all_its_episodes_in_the_listing() {
    let mut e1 = episode("e1", "se1", 1);
    e1.community_rating = Some(0);
    e1.run_time_ticks = Some(300_000_000);
    e1.media_streams = Some(vec![stream(StreamKind::Video, None, Some(720)), stream(StreamKind::Audio, None, None)]);
    let mut e2 = episode("e2", "se1", 2);
    e2.community_rating = Some(750);
    e2.run_time_ticks = Some(350_000_000);
    let mut e3 = episode("e3", "se1", 3);
    e3.community_rating = Some(800);
    let other = episode("x", "se9", 4);
    let snapshot = vec![e3, season("se1"), e1, other, e2];
    let message = announce(&subscriber(), &snapshot, 1);
    assert_eq!(message.title, "Foo (???) - Season 1");
    assert_eq!(
        message.image_url,
        "https://media.example/Items/se1/Images/Primary?api_key=KEY&Quality=100"
    );
    assert_eq!(message.description, Some("S01E01-E03".to_string()));
    assert_eq!(message.rating, "7.75");
    assert_eq!(message.runtime, "00:01:05");
    assert_eq!(message.resolution, "720p");
    assert_eq!(message.audio_languages, "?");
    assert_eq!(message.subtitle_languages, None);
}

#[test]
fn series_is_summed_up_over_the_episodes_of_all_its_seasons() {
    let series = CatalogItem::new(ItemKind::Series, "s1", "Foo");
    let mut second = season("se2");
    second.name = "Season 2".to_string();
    let mut e21 = episode("e21", "se2", 1);
    e21.parent_index_number = Some(2);
    let snapshot = vec![series, season("se1"), episode("e2", "se1", 2), episode("e1", "se1", 1), second, e21];
    let message = announce(&subscriber(), &snapshot, 0);
    assert_eq!(message.title, "Foo (???)");
    assert_eq!(message.description, Some("S01E01-E02, S02E01".to_string()));
    assert_eq!(message.rating, "?");
    assert_eq!(message.runtime, "00:00:00");
}

#[test]
fn season_without_episodes_has_an_empty_description() {
    let snapshot = vec![season("se1")];
    assert_eq!(describe(&snapshot, 0), "");
    assert_eq!(announce(&subscriber(), &snapshot, 0).description, Some(String::new()));
}

#[test]
fn describe_sorts_the_episodes_before_it_compresses() {
    let snapshot = vec![episode("e5", "se1", 5), episode("e2", "se1", 2), season("se1"), episode("e1", "se1", 1), episode("e3", "se1", 3)];
    assert_eq!(describe(&snapshot, 2), "S01E01-E03, S01E05");
}

#[test]
fn commit_ids_are_root_seasons_and_episodes() {
    let snapshot = vec![
        CatalogItem::new(ItemKind::Series, "s1", "Foo"),
        season("se1"),
        episode("e1", "se1", 1),
        episode("e2", "se1", 2),
    ];
    let group = AnnouncementGroup { root: 0, seasons: vec![1], episodes: vec![3, 2] };
    assert_eq!(
        commit_ids(&snapshot, &group),
        vec!["s1".to_string(), "se1".to_string(), "e2".to_string(), "e1".to_string()]
    );
    let alone = AnnouncementGroup { root: 2, seasons: vec![], episodes: vec![] };
    assert_eq!(commit_ids(&snapshot, &alone), vec!["e1".to_string()]);
}

#[test]
fn fields_show_question_mark_or_nothing_where_empty() {
    assert_eq!(show_rating(None), "?");
    assert_eq!(show_rating(Some(775)), "7.75");
    assert_eq!(show_list(&vec![]), "?");
    assert_eq!(show_list(&vec!["a".to_string(), "b".to_string()]), "a, b");
    assert_eq!(show_optional(&vec![]), None);
    assert_eq!(show_optional(&vec!["a".to_string()]), Some("a".to_string()));
}

#[test]
fn listing_url_asks_for_the_whole_library() {
    assert_eq!(
        subscriber().listing_url(),
        "https://media.example/Users/u1/Items?api_key=KEY&Recursive=true&IncludeItemTypes=Movie,Series,Episode,Season,Special&Fields=MediaStreams&collapseBoxSetItems=False"
    );
}

#[test]
fn paused_subscriber_is_not_active() {
    let mut paused = subscriber();
    assert!(paused.active());
    paused.active_channel = 0;
    assert!(!paused.active());
    assert_eq!(paused.duplicate(), paused);
}

fn field(name: &str, value: &str, inline: bool) -> Field {
    Field { name: name.to_string(), value: value.to_string(), inline }
}

#[test]
fn second_card_has_four_fields_and_the_subtitles_if_known() {
    let mut message = Announcement {
        title: "t".to_string(),
        image_url: "i".to_string(),
        description: None,
        rating: "7.75".to_string(),
        runtime: "00:01:05".to_string(),
        resolution: "1080p".to_string(),
        audio_languages: "eng, ger".to_string(),
        subtitle_languages: None,
    };
    let fixed = vec![
        field(":star: \u{2014} Rating", "7.75", true),
        field(":film_frames: \u{2014} Runtime", "00:01:05", true),
        field(":frame_photo: \u{2014} Resolution", "1080p", true),
        field(":loud_sound: \u{2014} Languages", "eng, ger", false),
    ];
    assert_eq!(message.fields(), fixed);
    message.subtitle_languages = Some("eng".to_string());
    let mut all = fixed;
    all.push(field(":notepad_spiral: \u{2014} Languages", "eng", false));
    assert_eq!(message.fields(), all);
}
