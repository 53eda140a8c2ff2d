use jellycord::ranges::{
    compress, group_runs, sort_spans, write_run, write_span, EpisodeRun, EpisodeSpan,
};

fn ep(season: u32, first: u32) -> EpisodeSpan {
    EpisodeSpan { season, first, block_end: None }
}

fn block(season: u32, first: u32, end: u32) -> EpisodeSpan {
    EpisodeSpan { season, first, block_end: Some(end) }
}

#[test]
fn contiguous_episodes_compress_to_a_range() {
    let spans = vec![ep(1, 1), ep(1, 2), ep(1, 3), ep(1, 5)];
    assert_eq!(compress(&spans), "S01E01-E03, S01E05");
}

#[test]
fn two_contiguous_episodes_make_one_range() {
    assert_eq!(compress(&vec![ep(1, 1), ep(1, 2)]), "S01E01-E02");
}

#[test]
fn single_episode_is_written_alone() {
    assert_eq!(compress(&vec![ep(2, 7)]), "S02E07");
}

#[test]
fn no_episodes_give_an_empty_description() {
    assert_eq!(compress(&vec![]), "");
}

#[test]
fn block_alone_is_written_with_its_end() {
    assert_eq!(compress(&vec![block(1, 1, 2)]), "S01E01-02");
    assert_eq!(write_span(&block(3, 10, 12)), "S03E10-12");
}

#[test]
fn block_merges_with_the_episode_after_its_end() {
    let spans = vec![ep(1, 1), block(1, 2, 3), ep(1, 4), ep(1, 6)];
    assert_eq!(compress(&spans), "S01E01-E04, S01E06");
}

#[test]
fn run_that_ends_in_a_block_ends_at_the_end_of_the_block() {
    assert_eq!(compress(&vec![ep(1, 1), block(1, 2, 3)]), "S01E01-E03");
}

#[test]
fn every_break_opens_a_new_segment() {
    let spans = vec![ep(1, 1), ep(1, 3), ep(1, 5)];
    assert_eq!(compress(&spans), "S01E01, S01E03, S01E05");
}

#[test]
fn numbers_of_three_digits_are_written_in_full() {
    assert_eq!(compress(&vec![ep(10, 100), ep(10, 101)]), "S10E100-E101");
}

#[test]
fn seasons_are_told_apart_in_the_description() {
    let spans = vec![ep(1, 1), ep(1, 2), ep(2, 1), ep(2, 2)];
    assert_eq!(compress(&spans), "S01E01-E02, S02E01-E02");
}

#[test]
fn group_runs_keeps_first_and_last_span() {
    let spans = vec![ep(1, 1), ep(1, 2), ep(1, 3), ep(1, 5)];
    assert_eq!(
        group_runs(&spans),
        vec![
            EpisodeRun { head: ep(1, 1), tail: Some(ep(1, 3)) },
            EpisodeRun { head: ep(1, 5), tail: None },
        ]
    );
    assert_eq!(write_run(&EpisodeRun { head: ep(1, 1), tail: Some(ep(1, 3)) }), "S01E01-E03");
}

#[test]
fn spans_are_sorted_by_season_then_episode() {
    let spans = vec![ep(2, 1), ep(1, 3), ep(1, 1), ep(2, 0), ep(1, 2)];
    assert_eq!(sort_spans(&spans), vec![ep(1, 1), ep(1, 2), ep(1, 3), ep(2, 0), ep(2, 1)]);
}

#[test]
fn sorting_keeps_the_order_of_equal_keys() {
    let spans = vec![block(1, 1, 2), ep(1, 1), ep(0, 9)];
    assert_eq!(sort_spans(&spans), vec![ep(0, 9), block(1, 1, 2), ep(1, 1)]);
}

#[test]
fn end_index_at_the_limit_does_not_overflow() {
    let spans = vec![ep(1, u32::MAX), ep(1, 0)];
    assert_eq!(compress(&spans), format!("S01E{}, S01E00", u32::MAX));
}
