use jellycord::catalog::{CatalogItem, ItemKind, MediaStream, StreamKind};
use jellycord::stats::{
    average_rating, collect_labels, note, summarize, total_run_time, write_clock, write_rating,
    Facet, LABEL_CAP,
};

fn stream(kind: StreamKind, language: Option<&str>, height: Option<u32>, interlaced: bool) -> MediaStream {
    MediaStream { kind, language: language.map(|l| l.to_string()), height, is_interlaced: interlaced }
}

fn episode(rating: Option<u32>, ticks: Option<u64>, streams: Option<Vec<MediaStream>>) -> CatalogItem {
    let mut item = CatalogItem::new(ItemKind::Episode, "e", "Episode");
    item.community_rating = rating;
    item.run_time_ticks = ticks;
    item.media_streams = streams;
    item
}

fn strings(list: &[&str]) -> Vec<String> {
    list.iter().map(|s| s.to_string()).collect()
}

#[test]
fn rating_average_excludes_zeros() {
    let snapshot = vec![
        episode(Some(0), None, None),
        episode(Some(750), None, None),
        episode(Some(800), None, None),
    ];
    let mean = average_rating(&snapshot, &vec![0, 1, 2]);
    assert_eq!(mean, Some(775));
    assert_eq!(write_rating(mean.unwrap()), "7.75");
}

#[test]
fn rating_average_excludes_missing_ratings() {
    let snapshot = vec![episode(None, None, None), episode(Some(600), None, None)];
    assert_eq!(average_rating(&snapshot, &vec![0, 1]), Some(600));
}

#[test]
fn no_rated_item_gives_no_average() {
    let snapshot = vec![episode(None, None, None), episode(Some(0), None, None)];
    assert_eq!(average_rating(&snapshot, &vec![0, 1]), None);
    assert_eq!(average_rating(&snapshot, &vec![]), None);
}

#[test]
fn rating_average_is_rounded_to_the_nearest_hundredth() {
    let snapshot = vec![
        episode(Some(750), None, None),
        episode(Some(800), None, None),
        episode(Some(810), None, None),
    ];
    assert_eq!(average_rating(&snapshot, &vec![0, 1, 2]), Some(787));
    let halves = vec![episode(Some(701), None, None), episode(Some(702), None, None)];
    assert_eq!(average_rating(&halves, &vec![0, 1]), Some(702));
}

#[test]
fn rating_average_of_the_largest_ratings_does_not_overflow() {
    let snapshot = vec![episode(Some(u32::MAX), None, None), episode(Some(u32::MAX), None, None)];
    assert_eq!(average_rating(&snapshot, &vec![0, 1]), Some(u32::MAX));
}

#[test]
fn an_item_counts_as_often_as_it_is_named() {
    let snapshot = vec![episode(Some(700), Some(10), None), episode(Some(800), Some(5), None)];
    assert_eq!(average_rating(&snapshot, &vec![0, 0, 1]), Some(733));
    assert_eq!(total_run_time(&snapshot, &vec![0, 0, 1]), 25);
}

#[test]
fn rating_is_written_with_two_decimals() {
    assert_eq!(write_rating(775), "7.75");
    assert_eq!(write_rating(800), "8.00");
    assert_eq!(write_rating(5), "0.05");
    assert_eq!(write_rating(1000), "10.00");
}

#[test]
fn runtime_formatting_truncates_to_whole_seconds() {
    assert_eq!(write_clock(36_000_000_000), "01:00:00");
    assert_eq!(write_clock(650_000_000), "00:01:05");
    assert_eq!(write_clock(0), "00:00:00");
    assert_eq!(write_clock(9_999_999), "00:00:00");
    assert_eq!(write_clock(10_000_000), "00:00:01");
    assert_eq!(write_clock(599_999_999), "00:00:59");
    assert_eq!(write_clock(600_000_000), "00:01:00");
    assert_eq!(write_clock(35_999_999_999), "00:59:59");
}

#[test]
fn runtime_of_a_hundred_hours_keeps_all_digits() {
    assert_eq!(write_clock(100 * 3600 * 10_000_000 + 61 * 10_000_000), "100:01:01");
}

#[test]
fn run_time_is_summed_over_the_items_that_have_one() {
    let snapshot = vec![
        episode(None, Some(18_000_000_000), None),
        episode(None, None, None),
        episode(None, Some(18_000_000_000), None),
    ];
    let total = total_run_time(&snapshot, &vec![0, 1, 2]);
    assert_eq!(total, 36_000_000_000);
    assert_eq!(write_clock(total), "01:00:00");
}

#[test]
fn run_time_sum_does_not_overflow() {
    let snapshot = vec![episode(None, Some(u64::MAX), None), episode(None, Some(u64::MAX), None)];
    assert_eq!(total_run_time(&snapshot, &vec![0, 1]), 2 * (u64::MAX as u128));
}

#[test]
fn resolutions_are_distinct_and_in_order_of_first_occurrence() {
    let snapshot = vec![
        episode(None, None, Some(vec![stream(StreamKind::Video, None, Some(1080), false)])),
        episode(None, None, Some(vec![stream(StreamKind::Video, None, Some(720), false)])),
        episode(None, None, Some(vec![stream(StreamKind::Video, None, Some(1080), false)])),
    ];
    assert_eq!(
        collect_labels(&snapshot, &vec![0, 1, 2], Facet::Resolution),
        strings(&["1080p", "720p"])
    );
}

#[test]
fn interlaced_stream_marks_every_resolution_of_its_item() {
    let snapshot = vec![episode(
        None,
        None,
        Some(vec![
            stream(StreamKind::Video, None, Some(576), false),
            stream(StreamKind::Video, None, Some(480), true),
        ]),
    )];
    assert_eq!(collect_labels(&snapshot, &vec![0], Facet::Resolution), strings(&["576i", "480i"]));
}

#[test]
fn unknown_height_is_written_as_question_mark() {
    let snapshot = vec![episode(None, None, Some(vec![stream(StreamKind::Video, None, None, false)]))];
    assert_eq!(collect_labels(&snapshot, &vec![0], Facet::Resolution), strings(&["?p"]));
}

#[test]
fn languages_are_distinct_and_missing_ones_are_question_marks() {
    let snapshot = vec![
        episode(
            None,
            None,
            Some(vec![
                stream(StreamKind::Audio, Some("eng"), None, false),
                stream(StreamKind::Audio, None, None, false),
                stream(StreamKind::Subtitle, Some("ger"), None, false),
            ]),
        ),
        episode(
            None,
            None,
            Some(vec![
                stream(StreamKind::Audio, Some("jpn"), None, false),
                stream(StreamKind::Audio, Some("eng"), None, false),
                stream(StreamKind::Subtitle, None, None, false),
                stream(StreamKind::Other, Some("und"), None, false),
            ]),
        ),
    ];
    let at = vec![0, 1];
    assert_eq!(collect_labels(&snapshot, &at, Facet::Audio), strings(&["eng", "?", "jpn"]));
    assert_eq!(collect_labels(&snapshot, &at, Facet::Subtitle), strings(&["ger", "?"]));
}

#[test]
fn item_without_streams_adds_no_label() {
    let snapshot = vec![episode(None, None, None), episode(None, None, Some(vec![]))];
    assert_eq!(collect_labels(&snapshot, &vec![0, 1], Facet::Audio), Vec::<String>::new());
}

#[test]
fn lists_are_capped_at_fifty_labels() {
    let mut streams = Vec::new();
    for n in 0..60u32 {
        streams.push(stream(StreamKind::Audio, Some(&format!("l{n}")), None, false));
    }
    let snapshot = vec![episode(None, None, Some(streams))];
    let labels = collect_labels(&snapshot, &vec![0], Facet::Audio);
    assert_eq!(LABEL_CAP, 50);
    assert_eq!(labels.len(), 50);
    assert_eq!(labels[0], "l0");
    assert_eq!(labels[49], "l49");
}

#[test]
fn note_adds_only_new_labels_to_a_list_that_is_not_full() {
    let mut list = strings(&["a"]);
    note(&mut list, "a".to_string());
    assert_eq!(list, strings(&["a"]));
    note(&mut list, "b".to_string());
    assert_eq!(list, strings(&["a", "b"]));
}

#[test]
fn summary_gathers_all_parts() {
    let snapshot = vec![
        episode(
            Some(750),
            Some(600_000_000),
            Some(vec![
                stream(StreamKind::Video, None, Some(1080), false),
                stream(StreamKind::Audio, Some("eng"), None, false),
            ]),
        ),
        episode(
            Some(800),
            Some(50_000_000),
            Some(vec![
                stream(StreamKind::Video, None, Some(1080), false),
                stream(StreamKind::Subtitle, Some("fre"), None, false),
            ]),
        ),
    ];
    let summary = summarize(&snapshot, &vec![0, 1]);
    assert_eq!(summary.rating, Some(775));
    assert_eq!(summary.run_time_ticks, 650_000_000);
    assert_eq!(summary.resolutions, strings(&["1080p"]));
    assert_eq!(summary.audio_languages, strings(&["eng"]));
    assert_eq!(summary.subtitle_languages, strings(&["fre"]));
}
