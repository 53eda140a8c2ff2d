//! The summary of a group of items: rating, run time, resolutions and
//! languages.

use crate::catalog::{valid_positions, CatalogItem, MediaStream, StreamKind};
use crate::text::{decimal, decimal_text, texts, two_digit_text, two_digits};
use vstd::prelude::*;

verus! {

/// The most labels that one list of a summary holds.
pub const LABEL_CAP: usize = 50;

/// Ticks of 100 nanoseconds in one second.
pub const TICKS_PER_SECOND: u128 = 10_000_000;

/// One of the lists that a summary draws from the streams of its items.
#[derive(Clone, Copy, Debug, PartialEq, Eq, Structural)]
pub enum Facet {
    /// The resolutions of the video streams.
    Resolution,
    /// The languages of the audio streams.
    Audio,
    /// The languages of the subtitle streams.
    Subtitle,
}

impl Facet {
    /// The kind of stream that the list is drawn from.
    pub open spec fn stream_kind(self) -> StreamKind {
        match self {
            Facet::Resolution => StreamKind::Video,
            Facet::Audio => StreamKind::Audio,
            Facet::Subtitle => StreamKind::Subtitle,
        }
    }

    /// Whether the list is drawn from streams of the kind `kind`.
    pub fn reads(self, kind: StreamKind) -> (wanted: bool)
        ensures
            wanted == (kind == self.stream_kind()),
    {
        match self {
            Facet::Resolution => kind == StreamKind::Video,
            Facet::Audio => kind == StreamKind::Audio,
            Facet::Subtitle => kind == StreamKind::Subtitle,
        }
    }
}

/// The streams of an item; none where the catalog gives no list.
pub open spec fn streams_of(item: CatalogItem) -> Seq<MediaStream> {
    match item.media_streams {
        Some(streams) => streams@,
        None => Seq::empty(),
    }
}

/// Some stream of the list is interlaced.
pub open spec fn any_interlaced(streams: Seq<MediaStream>) -> bool {
    exists|i: int| 0 <= i < streams.len() && (#[trigger] streams[i]).is_interlaced
}

/// The label that a stream of `item` adds to a list: for a resolution the
/// height, `?` where it is unknown, followed by `i` if any stream of the item
/// is interlaced and by `p` if none is; for a language the language, `?`
/// where it is unknown.
pub open spec fn stream_label(item: CatalogItem, stream: MediaStream, facet: Facet) -> Seq<char> {
    match facet {
        Facet::Resolution => {
            let height = match stream.height {
                Some(h) => decimal(h as nat),
                None => "?"@,
            };
            if any_interlaced(streams_of(item)) {
                height + "i"@
            } else {
                height + "p"@
            }
        },
        _ => match stream.language {
            Some(language) => language@,
            None => "?"@,
        },
    }
}

/// `list` after `label` was offered to it: a label that the list holds
/// already, or one that comes when the list is full, is not added.
pub open spec fn noted(list: Seq<Seq<char>>, label: Seq<char>) -> Seq<Seq<char>> {
    if list.contains(label) || list.len() >= LABEL_CAP {
        list
    } else {
        list.push(label)
    }
}

/// `list` after the labels of the given streams of `item` were offered to it
/// in their order.
pub open spec fn with_streams(
    list: Seq<Seq<char>>,
    item: CatalogItem,
    streams: Seq<MediaStream>,
    facet: Facet,
) -> Seq<Seq<char>>
    decreases streams.len(),
{
    if streams.len() == 0 {
        list
    } else {
        let prior = with_streams(list, item, streams.drop_last(), facet);
        if streams.last().kind == facet.stream_kind() {
            noted(prior, stream_label(item, streams.last(), facet))
        } else {
            prior
        }
    }
}

/// `list` after the labels of all streams of `item` were offered to it.
pub open spec fn with_item(list: Seq<Seq<char>>, item: CatalogItem, facet: Facet) -> Seq<
    Seq<char>,
> {
    with_streams(list, item, streams_of(item), facet)
}

/// The distinct labels of the items at the positions `at`, in the order in
/// which they first occur, and no more than [`LABEL_CAP`] of them.
pub open spec fn labels(snapshot: Seq<CatalogItem>, at: Seq<usize>, facet: Facet) -> Seq<Seq<char>>
    decreases at.len(),
{
    if at.len() == 0 {
        Seq::empty()
    } else {
        with_item(labels(snapshot, at.drop_last(), facet), snapshot[at.last() as int], facet)
    }
}

/// The item has a rating that counts: one that is present and not zero.
pub open spec fn is_rated(item: CatalogItem) -> bool {
    item.community_rating matches Some(rating) && rating != 0
}

/// The sum of the ratings that count among the items at `at`.
pub open spec fn rating_total(snapshot: Seq<CatalogItem>, at: Seq<usize>) -> nat
    decreases at.len(),
{
    if at.len() == 0 {
        0
    } else {
        let item = snapshot[at.last() as int];
        rating_total(snapshot, at.drop_last()) + if is_rated(item) {
            item.community_rating->0 as nat
        } else {
            0
        }
    }
}

/// The number of items at `at` with a rating that counts.
pub open spec fn rated_count(snapshot: Seq<CatalogItem>, at: Seq<usize>) -> nat
    decreases at.len(),
{
    if at.len() == 0 {
        0
    } else {
        rated_count(snapshot, at.drop_last()) + if is_rated(snapshot[at.last() as int]) {
            1nat
        } else {
            0nat
        }
    }
}

/// The quotient of `total` by `count`, rounded to the nearest whole number,
/// a half upwards.
pub open spec fn rounded_mean(total: nat, count: nat) -> nat {
    (2 * total + count) / (2 * count)
}

/// The mean of the ratings that count among the items at `at`, in hundredths
/// of a point; none where no rating counts.
pub open spec fn mean_rating(snapshot: Seq<CatalogItem>, at: Seq<usize>) -> Option<u32> {
    if rated_count(snapshot, at) == 0 {
        None
    } else {
        Some(rounded_mean(rating_total(snapshot, at), rated_count(snapshot, at)) as u32)
    }
}

/// The sum of the run times that are known among the items at `at`, in ticks.
pub open spec fn run_time_total(snapshot: Seq<CatalogItem>, at: Seq<usize>) -> nat
    decreases at.len(),
{
    if at.len() == 0 {
        0
    } else {
        run_time_total(snapshot, at.drop_last()) + match snapshot[at.last() as int].run_time_ticks {
            Some(ticks) => ticks as nat,
            None => 0,
        }
    }
}

/// How a rating in hundredths of a point is written: with two decimals.
pub open spec fn rating_text(rating: u32) -> Seq<char> {
    decimal((rating / 100) as nat) + "."@ + two_digits((rating % 100) as nat)
}

/// How a duration in ticks is written: the whole seconds that it holds, as
/// hours, minutes and seconds of two digits each. What is left of a second
/// is dropped.
pub open spec fn clock_text(ticks: nat) -> Seq<char> {
    let seconds = ticks / (TICKS_PER_SECOND as nat);
    two_digits(seconds / 3600) + ":"@ + two_digits((seconds % 3600) / 60) + ":"@ + two_digits(
        seconds % 60,
    )
}

/// What is known of a group of items taken together.
#[derive(Clone, Debug, PartialEq, Eq)]
pub struct Summary {
    /// The mean rating in hundredths of a point, if any item is rated.
    pub rating: Option<u32>,
    /// The run time of all items whose run time is known, in ticks.
    pub run_time_ticks: u128,
    /// The distinct resolutions of the video streams.
    pub resolutions: Vec<String>,
    /// The distinct languages of the audio streams.
    pub audio_languages: Vec<String>,
    /// The distinct languages of the subtitle streams.
    pub subtitle_languages: Vec<String>,
}

/// Whether the list holds the text.
pub fn holds(list: &Vec<String>, text: &String) -> (found: bool)
    ensures
        found == texts(list@).contains(text@),
{
    let mut i: usize = 0;
    while i < list.len()
        invariant
            i <= list.len(),
            forall|k: int| 0 <= k < i ==> texts(list@)[k] != text@,
        decreases list.len() - i,
    {
        if list[i] == *text {
            assert(texts(list@)[i as int] == text@);
            return true;
        }
        i += 1;
    }
    false
}

/// Offers a label to a list.
pub fn note(list: &mut Vec<String>, label: String)
    ensures
        texts(final(list)@) == noted(texts(old(list)@), label@),
{
    if !holds(list, &label) && list.len() < LABEL_CAP {
        list.push(label);
        assert(texts(list@) =~= texts(old(list)@).push(label@));
    }
}

/// Whether any stream of the list is interlaced.
pub fn has_interlaced(streams: &Vec<MediaStream>) -> (found: bool)
    ensures
        found == any_interlaced(streams@),
{
    let mut i: usize = 0;
    while i < streams.len()
        invariant
            i <= streams.len(),
            forall|k: int| 0 <= k < i ==> !(#[trigger] streams@[k]).is_interlaced,
        decreases streams.len() - i,
    {
        if streams[i].is_interlaced {
            return true;
        }
        i += 1;
    }
    false
}

/// Writes the label that a stream of `item` adds to a list. `interlaced` says
/// whether any stream of the item is interlaced.
fn write_label(item: &CatalogItem, stream: &MediaStream, facet: Facet, interlaced: bool) -> (label:
    String)
    requires
        interlaced == any_interlaced(streams_of(*item)),
    ensures
        label@ == stream_label(*item, *stream, facet),
{
    match facet {
        Facet::Resolution => {
            let mut label = match stream.height {
                Some(h) => decimal_text(h as u128),
                None => String::from_str("?"),
            };
            if interlaced {
                label.append("i");
            } else {
                label.append("p");
            }
            label
        },
        _ => match &stream.language {
            Some(language) => language.clone(),
            None => String::from_str("?"),
        },
    }
}

/// Offers the labels of all streams of `item` to a list.
pub fn note_item(list: &mut Vec<String>, item: &CatalogItem, facet: Facet)
    ensures
        texts(final(list)@) == with_item(texts(old(list)@), *item, facet),
{
    match &item.media_streams {
        Some(streams) => {
            let interlaced = has_interlaced(streams);
            let mut i: usize = 0;
            assert(streams@.take(0) =~= Seq::<MediaStream>::empty());
            while i < streams.len()
                invariant
                    i <= streams.len(),
                    item.media_streams == Some(*streams),
                    interlaced == any_interlaced(streams_of(*item)),
                    texts(list@) == with_streams(
                        texts(old(list)@),
                        *item,
                        streams@.take(i as int),
                        facet,
                    ),
                decreases streams.len() - i,
            {
                proof {
                    assert(streams@.take(i + 1).drop_last() =~= streams@.take(i as int));
                }
                if facet.reads(streams[i].kind) {
                    let label = write_label(item, &streams[i], facet, interlaced);
                    note(list, label);
                }
                i += 1;
            }
            assert(streams@.take(streams@.len() as int) =~= streams@);
        },
        None => {},
    }
}

/// The distinct labels of the items at the positions `at`.
pub fn collect_labels(snapshot: &Vec<CatalogItem>, at: &Vec<usize>, facet: Facet) -> (list: Vec<
    String,
>)
    requires
        valid_positions(snapshot@, at@),
    ensures
        texts(list@) == labels(snapshot@, at@, facet),
{
    let mut list: Vec<String> = Vec::new();
    let mut i: usize = 0;
    assert(at@.take(0) =~= Seq::<usize>::empty());
    assert(texts(list@) =~= Seq::<Seq<char>>::empty());
    while i < at.len()
        invariant
            i <= at.len(),
            valid_positions(snapshot@, at@),
            texts(list@) == labels(snapshot@, at@.take(i as int), facet),
        decreases at.len() - i,
    {
        proof {
            assert(at@.take(i + 1).drop_last() =~= at@.take(i as int));
        }
        note_item(&mut list, &snapshot[at[i]], facet);
        i += 1;
    }
    assert(at@.take(at@.len() as int) =~= at@);
    list
}

/// The mean of the ratings that count among the items at `at`.
pub fn average_rating(snapshot: &Vec<CatalogItem>, at: &Vec<usize>) -> (mean: Option<u32>)
    requires
        valid_positions(snapshot@, at@),
    ensures
        mean == mean_rating(snapshot@, at@),
{
    let mut total: u128 = 0;
    let mut count: u128 = 0;
    let mut i: usize = 0;
    assert(at@.take(0) =~= Seq::<usize>::empty());
    while i < at.len()
        invariant
            i <= at.len(),
            valid_positions(snapshot@, at@),
            total == rating_total(snapshot@, at@.take(i as int)),
            count == rated_count(snapshot@, at@.take(i as int)),
            count <= i,
            total <= count * 0xffff_ffff,
        decreases at.len() - i,
    {
        proof {
            assert(at@.take(i + 1).drop_last() =~= at@.take(i as int));
            assert(count * 0xffff_ffff <= 0xffff_ffff_ffff_ffff * 0xffff_ffff) by (nonlinear_arith)
                requires
                    count <= 0xffff_ffff_ffff_ffff,
            ;
            assert((count + 1) * 0xffff_ffff == count * 0xffff_ffff + 0xffff_ffff)
                by (nonlinear_arith);
        }
        match snapshot[at[i]].community_rating {
            Some(rating) => {
                if rating != 0 {
                    total = total + rating as u128;
                    count = count + 1;
                }
            },
            None => {},
        }
        i += 1;
    }
    assert(at@.take(at@.len() as int) =~= at@);
    if count == 0 {
        None
    } else {
        proof {
            assert(count * 0xffff_ffff <= 0xffff_ffff_ffff_ffff * 0xffff_ffff) by (nonlinear_arith)
                requires
                    count <= 0xffff_ffff_ffff_ffff,
            ;
            assert((2 * total + count) / (2 * count) <= 0xffff_ffff) by (nonlinear_arith)
                requires
                    count > 0,
                    total <= count * 0xffff_ffff,
            ;
        }
        Some(((2 * total + count) / (2 * count)) as u32)
    }
}

/// The sum of the run times that are known among the items at `at`.
pub fn total_run_time(snapshot: &Vec<CatalogItem>, at: &Vec<usize>) -> (ticks: u128)
    requires
        valid_positions(snapshot@, at@),
    ensures
        ticks == run_time_total(snapshot@, at@),
{
    let mut ticks: u128 = 0;
    let mut i: usize = 0;
    assert(at@.take(0) =~= Seq::<usize>::empty());
    while i < at.len()
        invariant
            i <= at.len(),
            valid_positions(snapshot@, at@),
            ticks == run_time_total(snapshot@, at@.take(i as int)),
            ticks <= i * 0xffff_ffff_ffff_ffff,
        decreases at.len() - i,
    {
        proof {
            assert(at@.take(i + 1).drop_last() =~= at@.take(i as int));
            assert(i * 0xffff_ffff_ffff_ffff <= 0xffff_ffff_ffff_ffff * 0xffff_ffff_ffff_ffff)
                by (nonlinear_arith)
                requires
                    i <= 0xffff_ffff_ffff_ffff,
            ;
            assert((i + 1) * 0xffff_ffff_ffff_ffff == i * 0xffff_ffff_ffff_ffff
                + 0xffff_ffff_ffff_ffff) by (nonlinear_arith);
        }
        match snapshot[at[i]].run_time_ticks {
            Some(more) => {
                ticks = ticks + more as u128;
            },
            None => {},
        }
        i += 1;
    }
    assert(at@.take(at@.len() as int) =~= at@);
    ticks
}

/// Gathers what is known of the items at the positions `at`.
pub fn summarize(snapshot: &Vec<CatalogItem>, at: &Vec<usize>) -> (summary: Summary)
    requires
        valid_positions(snapshot@, at@),
    ensures
        summary.rating == mean_rating(snapshot@, at@),
        summary.run_time_ticks == run_time_total(snapshot@, at@),
        texts(summary.resolutions@) == labels(snapshot@, at@, Facet::Resolution),
        texts(summary.audio_languages@) == labels(snapshot@, at@, Facet::Audio),
        texts(summary.subtitle_languages@) == labels(snapshot@, at@, Facet::Subtitle),
{
    Summary {
        rating: average_rating(snapshot, at),
        run_time_ticks: total_run_time(snapshot, at),
        resolutions: collect_labels(snapshot, at, Facet::Resolution),
        audio_languages: collect_labels(snapshot, at, Facet::Audio),
        subtitle_languages: collect_labels(snapshot, at, Facet::Subtitle),
    }
}

/// Writes a rating in hundredths of a point with two decimals.
pub fn write_rating(rating: u32) -> (text: String)
    ensures
        text@ == rating_text(rating),
{
    let mut text = decimal_text((rating / 100) as u128);
    text.append(".");
    text.append(two_digit_text((rating % 100) as u128).as_str());
    text
}

/// Writes a duration in ticks as hours, minutes and seconds.
pub fn write_clock(ticks: u128) -> (text: String)
    ensures
        text@ == clock_text(ticks as nat),
{
    let seconds = ticks / TICKS_PER_SECOND;
    let mut text = two_digit_text(seconds / 3600);
    text.append(":");
    text.append(two_digit_text((seconds % 3600) / 60).as_str());
    text.append(":");
    text.append(two_digit_text(seconds % 60).as_str());
    text
}

/// Offering the labels of streams to a list that names nothing twice and
/// holds no more than [`LABEL_CAP`] labels leaves it such a list, and keeps
/// what it held at the front.
proof fn lemma_with_streams_keeps_distinct(
    list: Seq<Seq<char>>,
    item: CatalogItem,
    streams: Seq<MediaStream>,
    facet: Facet,
)
    requires
        list.no_duplicates(),
        list.len() <= LABEL_CAP,
    ensures
        with_streams(list, item, streams, facet).no_duplicates(),
        with_streams(list, item, streams, facet).len() <= LABEL_CAP,
        list.is_prefix_of(with_streams(list, item, streams, facet)),
    decreases streams.len(),
{
    if streams.len() > 0 {
        lemma_with_streams_keeps_distinct(list, item, streams.drop_last(), facet);
    }
}

/// A list of a summary names no label twice and holds no more than
/// [`LABEL_CAP`] labels.
pub proof fn lemma_labels_are_distinct(snapshot: Seq<CatalogItem>, at: Seq<usize>, facet: Facet)
    ensures
        labels(snapshot, at, facet).no_duplicates(),
        labels(snapshot, at, facet).len() <= LABEL_CAP,
    decreases at.len(),
{
    if at.len() > 0 {
        lemma_labels_are_distinct(snapshot, at.drop_last(), facet);
        lemma_with_streams_keeps_distinct(
            labels(snapshot, at.drop_last(), facet),
            snapshot[at.last() as int],
            streams_of(snapshot[at.last() as int]),
            facet,
        );
    }
}

/// An item without a rating, or with the rating zero, changes neither the
/// mean rating of a group nor, if its run time is unknown too, the run time.
pub proof fn lemma_unrated_items_do_not_count(
    snapshot: Seq<CatalogItem>,
    at: Seq<usize>,
    p: usize,
)
    requires
        p < snapshot.len(),
        !is_rated(snapshot[p as int]),
    ensures
        mean_rating(snapshot, at.push(p)) == mean_rating(snapshot, at),
        snapshot[p as int].run_time_ticks is None ==> run_time_total(snapshot, at.push(p))
            == run_time_total(snapshot, at),
{
    assert(at.push(p).drop_last() =~= at);
}

/// The mean of the ratings of a single rated item is its own rating.
pub proof fn lemma_mean_of_one(snapshot: Seq<CatalogItem>, p: usize)
    requires
        p < snapshot.len(),
    ensures
        mean_rating(snapshot, seq![p]) == if is_rated(snapshot[p as int]) {
            snapshot[p as int].community_rating
        } else {
            None
        },
{
    let at = seq![p];
    assert(at.drop_last() =~= Seq::<usize>::empty());
    assert(rating_total(snapshot, at.drop_last()) == 0);
    assert(rated_count(snapshot, at.drop_last()) == 0);
    if is_rated(snapshot[p as int]) {
        let rating = snapshot[p as int].community_rating->0 as nat;
        assert(rounded_mean(rating, 1) == rating) by (nonlinear_arith);
    }
}

/// `label` is the label of some stream of the kind that `facet` reads among
/// the given streams of `item`.
pub open spec fn is_stream_label(
    item: CatalogItem,
    streams: Seq<MediaStream>,
    facet: Facet,
    label: Seq<char>,
) -> bool {
    exists|j: int|
        0 <= j < streams.len() && (#[trigger] streams[j]).kind == facet.stream_kind()
            && stream_label(item, streams[j], facet) == label
}

/// `label` is the label of some stream of the kind that `facet` reads of
/// some item at the positions `at`.
pub open spec fn is_label_of(
    snapshot: Seq<CatalogItem>,
    at: Seq<usize>,
    facet: Facet,
    label: Seq<char>,
) -> bool {
    exists|i: int|
        0 <= i < at.len() && is_stream_label(
            snapshot[#[trigger] at[i] as int],
            streams_of(snapshot[at[i] as int]),
            facet,
            label,
        )
}

/// What a list holds after streams were offered to it was in it before or
/// is the label of one of the streams; and unless the list is full, it holds
/// the label of each of them.
proof fn lemma_with_streams_is_exact(
    list: Seq<Seq<char>>,
    item: CatalogItem,
    streams: Seq<MediaStream>,
    facet: Facet,
)
    ensures
        forall|k: int|
            0 <= k < with_streams(list, item, streams, facet).len() ==> list.contains(
                #[trigger] with_streams(list, item, streams, facet)[k],
            ) || is_stream_label(item, streams, facet, with_streams(list, item, streams, facet)[k]),
        list.is_prefix_of(with_streams(list, item, streams, facet)),
        with_streams(list, item, streams, facet).len() < LABEL_CAP ==> forall|label: Seq<char>|
            is_stream_label(item, streams, facet, label) ==> with_streams(
                list,
                item,
                streams,
                facet,
            ).contains(label),
    decreases streams.len(),
{
    let result = with_streams(list, item, streams, facet);
    if streams.len() > 0 {
        let shorter = streams.drop_last();
        let prior = with_streams(list, item, shorter, facet);
        let last = streams.last();
        lemma_with_streams_is_exact(list, item, shorter, facet);
        assert forall|k: int| 0 <= k < result.len() implies list.contains(#[trigger] result[k])
            || is_stream_label(item, streams, facet, result[k]) by {
            if k < prior.len() {
                assert(result[k] == prior[k]);
                if is_stream_label(item, shorter, facet, prior[k]) {
                    let j = choose|j: int|
                        0 <= j < shorter.len() && (#[trigger] shorter[j]).kind
                            == facet.stream_kind() && stream_label(item, shorter[j], facet)
                            == prior[k];
                    assert(streams[j] == shorter[j]);
                }
            } else {
                assert(streams[streams.len() - 1] == last);
            }
        }
        if result.len() < LABEL_CAP {
            assert forall|label: Seq<char>|
                is_stream_label(item, streams, facet, label) implies result.contains(label) by {
                let j = choose|j: int|
                    0 <= j < streams.len() && (#[trigger] streams[j]).kind == facet.stream_kind()
                        && stream_label(item, streams[j], facet) == label;
                if j < shorter.len() {
                    assert(shorter[j] == streams[j]);
                    assert(is_stream_label(item, shorter, facet, label));
                    assert(prior.contains(label));
                    let k = choose|k: int| 0 <= k < prior.len() && prior[k] == label;
                    assert(result[k] == label);
                } else {
                    if prior.contains(label) {
                        let k = choose|k: int| 0 <= k < prior.len() && prior[k] == label;
                        assert(result[k] == label);
                    } else {
                        assert(result[prior.len() as int] == label);
                    }
                }
            }
        }
    }
}

/// A list of a summary holds nothing but labels of streams of its items, and
/// unless it is full it holds the label of every such stream.
pub proof fn lemma_labels_come_from_the_streams(
    snapshot: Seq<CatalogItem>,
    at: Seq<usize>,
    facet: Facet,
)
    ensures
        forall|k: int|
            0 <= k < labels(snapshot, at, facet).len() ==> is_label_of(
                snapshot,
                at,
                facet,
                #[trigger] labels(snapshot, at, facet)[k],
            ),
        labels(snapshot, at, facet).len() < LABEL_CAP ==> forall|label: Seq<char>|
            is_label_of(snapshot, at, facet, label) ==> labels(snapshot, at, facet).contains(label),
    decreases at.len(),
{
    let result = labels(snapshot, at, facet);
    if at.len() > 0 {
        let shorter = at.drop_last();
        let prior = labels(snapshot, shorter, facet);
        let item = snapshot[at.last() as int];
        let streams = streams_of(item);
        lemma_labels_come_from_the_streams(snapshot, shorter, facet);
        lemma_with_streams_is_exact(prior, item, streams, facet);
        assert forall|k: int| 0 <= k < result.len() implies is_label_of(
            snapshot,
            at,
            facet,
            #[trigger] result[k],
        ) by {
            if prior.contains(result[k]) {
                let m = choose|m: int| 0 <= m < prior.len() && prior[m] == result[k];
                assert(is_label_of(snapshot, shorter, facet, prior[m]));
                let i = choose|i: int|
                    0 <= i < shorter.len() && is_stream_label(
                        snapshot[#[trigger] shorter[i] as int],
                        streams_of(snapshot[shorter[i] as int]),
                        facet,
                        prior[m],
                    );
                assert(at[i] == shorter[i]);
            } else {
                assert(at[at.len() - 1] == at.last());
            }
        }
        if result.len() < LABEL_CAP {
            assert forall|label: Seq<char>|
                is_label_of(snapshot, at, facet, label) implies result.contains(label) by {
                let i = choose|i: int|
                    0 <= i < at.len() && is_stream_label(
                        snapshot[#[trigger] at[i] as int],
                        streams_of(snapshot[at[i] as int]),
                        facet,
                        label,
                    );
                if i < shorter.len() {
                    assert(shorter[i] == at[i]);
                    assert(is_label_of(snapshot, shorter, facet, label));
                    assert(prior.contains(label));
                    let k = choose|k: int| 0 <= k < prior.len() && prior[k] == label;
                    assert(result[k] == label);
                }
            }
        }
    }
}

} // verus!
