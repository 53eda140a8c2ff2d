//! What one announcement says: title, picture, description and the fields
//! of the summary, and which identifiers are recorded after its delivery.

use crate::catalog::{valid_positions, CatalogItem, ItemKind};
use crate::hierarchy::{
    descendant_episodes, descendants, valid_group, AnnouncementGroup, GroupView,
};
use crate::ranges::{
    compress, compressed, is_ascending, keeps_order, lemma_runs_follow_the_list,
    lemma_sorted_spans_are_ordered, runs, sort_spans, sorted_spans, span, span_of, EpisodeSpan,
};
use crate::stats::{
    clock_text, labels, mean_rating, rating_text, run_time_total, summarize, write_clock,
    write_rating, Facet,
};
use crate::subscriber::Instance;
use crate::text::{join, joined, texts};
use crate::title::{anchor, image_anchor, title_of};
use vstd::prelude::*;

verus! {

/// One message to a subscriber: a card with title, picture and, for a season
/// or series, the description of its episodes, and the fields of a second
/// card.
#[derive(Clone, Debug, PartialEq, Eq)]
pub struct Announcement {
    pub title: String,
    pub image_url: String,
    pub description: Option<String>,
    pub rating: String,
    pub runtime: String,
    pub resolution: String,
    pub audio_languages: String,
    /// Left out where no subtitle stream is known.
    pub subtitle_languages: Option<String>,
}

/// The mathematical content of an [`Announcement`].
pub struct AnnouncementView {
    pub title: Seq<char>,
    pub image_url: Seq<char>,
    pub description: Option<Seq<char>>,
    pub rating: Seq<char>,
    pub runtime: Seq<char>,
    pub resolution: Seq<char>,
    pub audio_languages: Seq<char>,
    pub subtitle_languages: Option<Seq<char>>,
}

impl View for Announcement {
    type V = AnnouncementView;

    open spec fn view(&self) -> AnnouncementView {
        AnnouncementView {
            title: self.title@,
            image_url: self.image_url@,
            description: match self.description {
                Some(text) => Some(text@),
                None => None,
            },
            rating: self.rating@,
            runtime: self.runtime@,
            resolution: self.resolution@,
            audio_languages: self.audio_languages@,
            subtitle_languages: match self.subtitle_languages {
                Some(text) => Some(text@),
                None => None,
            },
        }
    }
}

/// One labelled entry of the second card of an announcement.
#[derive(Clone, Debug, PartialEq, Eq)]
pub struct Field {
    pub name: String,
    pub value: String,
    /// Whether the entry may share its line with others.
    pub inline: bool,
}

/// The mathematical content of a [`Field`].
pub struct FieldView {
    pub name: Seq<char>,
    pub value: Seq<char>,
    pub inline: bool,
}

impl View for Field {
    type V = FieldView;

    open spec fn view(&self) -> FieldView {
        FieldView { name: self.name@, value: self.value@, inline: self.inline }
    }
}

/// The content of each field of a list.
pub open spec fn field_views(fields: Seq<Field>) -> Seq<FieldView> {
    fields.map_values(|field: Field| field@)
}

/// The fields of the second card: rating, run time and resolution side by
/// side, then the audio languages, then the subtitle languages where any are
/// known.
pub open spec fn fields_of(message: AnnouncementView) -> Seq<FieldView> {
    let fixed = seq![
        FieldView { name: ":star: \u{2014} Rating"@, value: message.rating, inline: true },
        FieldView {
            name: ":film_frames: \u{2014} Runtime"@,
            value: message.runtime,
            inline: true,
        },
        FieldView {
            name: ":frame_photo: \u{2014} Resolution"@,
            value: message.resolution,
            inline: true,
        },
        FieldView {
            name: ":loud_sound: \u{2014} Languages"@,
            value: message.audio_languages,
            inline: false,
        },
    ];
    match message.subtitle_languages {
        Some(languages) => fixed.push(
            FieldView {
                name: ":notepad_spiral: \u{2014} Languages"@,
                value: languages,
                inline: false,
            },
        ),
        None => fixed,
    }
}

impl Announcement {
    /// The fields of the second card, in their order.
    pub fn fields(&self) -> (fields: Vec<Field>)
        ensures
            field_views(fields@) == fields_of(self@),
    {
        let mut fields: Vec<Field> = Vec::new();
        fields.push(
            Field {
                name: String::from_str(":star: \u{2014} Rating"),
                value: self.rating.clone(),
                inline: true,
            },
        );
        fields.push(
            Field {
                name: String::from_str(":film_frames: \u{2014} Runtime"),
                value: self.runtime.clone(),
                inline: true,
            },
        );
        fields.push(
            Field {
                name: String::from_str(":frame_photo: \u{2014} Resolution"),
                value: self.resolution.clone(),
                inline: true,
            },
        );
        fields.push(
            Field {
                name: String::from_str(":loud_sound: \u{2014} Languages"),
                value: self.audio_languages.clone(),
                inline: false,
            },
        );
        match &self.subtitle_languages {
            Some(languages) => {
                fields.push(
                    Field {
                        name: String::from_str(":notepad_spiral: \u{2014} Languages"),
                        value: languages.clone(),
                        inline: false,
                    },
                );
            },
            None => {},
        }
        assert(field_views(fields@) =~= fields_of(self@));
        fields
    }
}

/// An item that is announced together with what lies below it.
pub open spec fn is_rollup(item: CatalogItem) -> bool {
    item.kind == ItemKind::Season || item.kind == ItemKind::Series
}

/// The spans of the episodes at the positions `at`.
pub open spec fn spans_at(snapshot: Seq<CatalogItem>, at: Seq<usize>) -> Seq<EpisodeSpan> {
    at.map_values(|p: usize| span_of(snapshot[p as int]))
}

/// The description of the season or series at `root`: all its episodes in
/// the listing, by season and number, in compact form.
pub open spec fn description_of(snapshot: Seq<CatalogItem>, root: usize) -> Seq<char> {
    compressed(sorted_spans(spans_at(snapshot, descendants(snapshot, root))))
}

/// How a rating is shown: with two decimals, or `?` where there is none.
pub open spec fn rating_field(mean: Option<u32>) -> Seq<char> {
    match mean {
        Some(rating) => rating_text(rating),
        None => "?"@,
    }
}

/// How a list of labels is shown: separated by commas, or `?` where it is empty.
pub open spec fn list_field(list: Seq<Seq<char>>) -> Seq<char> {
    if list.len() == 0 {
        "?"@
    } else {
        joined(list, ", "@)
    }
}

/// How a list of labels is shown that is left out where it is empty.
pub open spec fn optional_field(list: Seq<Seq<char>>) -> Option<Seq<char>> {
    if list.len() == 0 {
        None
    } else {
        Some(joined(list, ", "@))
    }
}

/// The announcement of the item at `root` to the subscriber `to`.
///
/// A season or series is summed up over all its episodes in the listing,
/// announced before or not; any other item speaks for itself, and what is
/// unknown of it is shown as `?`.
pub open spec fn announced(
    to: Instance,
    snapshot: Seq<CatalogItem>,
    root: usize,
) -> AnnouncementView {
    let item = snapshot[root as int];
    if is_rollup(item) {
        let below = descendants(snapshot, root);
        AnnouncementView {
            title: title_of(item),
            image_url: to.image_address(image_anchor(item), true),
            description: Some(description_of(snapshot, root)),
            rating: rating_field(mean_rating(snapshot, below)),
            runtime: clock_text(run_time_total(snapshot, below)),
            resolution: list_field(labels(snapshot, below, Facet::Resolution)),
            audio_languages: list_field(labels(snapshot, below, Facet::Audio)),
            subtitle_languages: optional_field(labels(snapshot, below, Facet::Subtitle)),
        }
    } else {
        let own = seq![root];
        AnnouncementView {
            title: title_of(item),
            image_url: to.image_address(image_anchor(item), false),
            description: None,
            rating: rating_field(mean_rating(snapshot, own)),
            runtime: match item.run_time_ticks {
                Some(ticks) => clock_text(ticks as nat),
                None => "?"@,
            },
            resolution: list_field(labels(snapshot, own, Facet::Resolution)),
            audio_languages: list_field(labels(snapshot, own, Facet::Audio)),
            subtitle_languages: optional_field(labels(snapshot, own, Facet::Subtitle)),
        }
    }
}

/// The identifiers of the items at the positions `at`.
pub open spec fn ids_at(snapshot: Seq<CatalogItem>, at: Seq<usize>) -> Seq<Seq<char>> {
    at.map_values(|p: usize| snapshot[p as int].id@)
}

/// The identifiers that are recorded once a group was announced: that of its
/// root, those of its seasons and those of its episodes.
pub open spec fn group_ids(snapshot: Seq<CatalogItem>, group: GroupView) -> Seq<Seq<char>> {
    seq![snapshot[group.root as int].id@] + ids_at(snapshot, group.seasons) + ids_at(
        snapshot,
        group.episodes,
    )
}

/// Whether an item is announced together with what lies below it.
pub fn rollup(item: &CatalogItem) -> (wide: bool)
    ensures
        wide == is_rollup(*item),
{
    match item.kind {
        ItemKind::Season => true,
        ItemKind::Series => true,
        _ => false,
    }
}

/// The spans of the episodes at the positions `at`.
pub fn spans_of(snapshot: &Vec<CatalogItem>, at: &Vec<usize>) -> (spans: Vec<EpisodeSpan>)
    requires
        valid_positions(snapshot@, at@),
    ensures
        spans@ == spans_at(snapshot@, at@),
{
    let mut spans: Vec<EpisodeSpan> = Vec::new();
    let mut i: usize = 0;
    while i < at.len()
        invariant
            i <= at.len(),
            valid_positions(snapshot@, at@),
            spans@.len() == i,
            forall|k: int| 0 <= k < i ==> spans@[k] == span_of(snapshot@[at@[k] as int]),
        decreases at.len() - i,
    {
        spans.push(span(&snapshot[at[i]]));
        i += 1;
    }
    assert(spans@ =~= spans_at(snapshot@, at@));
    spans
}

/// Describes the episodes of the season or series at `root`.
pub fn describe(snapshot: &Vec<CatalogItem>, root: usize) -> (text: String)
    ensures
        text@ == description_of(snapshot@, root),
{
    let below = descendant_episodes(snapshot, root);
    let spans = spans_of(snapshot, &below);
    compress(&sort_spans(&spans))
}

/// Writes a rating, or `?`.
pub fn show_rating(mean: Option<u32>) -> (text: String)
    ensures
        text@ == rating_field(mean),
{
    match mean {
        Some(rating) => write_rating(rating),
        None => String::from_str("?"),
    }
}

/// Writes a list of labels, or `?` where it is empty.
pub fn show_list(list: &Vec<String>) -> (text: String)
    ensures
        text@ == list_field(texts(list@)),
{
    if list.len() == 0 {
        String::from_str("?")
    } else {
        join(list, ", ")
    }
}

/// Writes a list of labels, or nothing where it is empty.
pub fn show_optional(list: &Vec<String>) -> (text: Option<String>)
    ensures
        match text {
            Some(shown) => optional_field(texts(list@)) == Some(shown@),
            None => optional_field(texts(list@)) is None,
        },
{
    if list.len() == 0 {
        None
    } else {
        Some(join(list, ", "))
    }
}

/// Makes the announcement of the item at `root` to the subscriber `to`.
pub fn announce(to: &Instance, snapshot: &Vec<CatalogItem>, root: usize) -> (message: Announcement)
    requires
        root < snapshot.len(),
    ensures
        message@ == announced(*to, snapshot@, root),
{
    let item = &snapshot[root];
    let picture = anchor(item);
    if rollup(item) {
        let below = descendant_episodes(snapshot, root);
        let summary = summarize(snapshot, &below);
        Announcement {
            title: item.to_string(),
            image_url: to.image_url(&picture, true),
            description: Some(describe(snapshot, root)),
            rating: show_rating(summary.rating),
            runtime: write_clock(summary.run_time_ticks),
            resolution: show_list(&summary.resolutions),
            audio_languages: show_list(&summary.audio_languages),
            subtitle_languages: show_optional(&summary.subtitle_languages),
        }
    } else {
        let mut own: Vec<usize> = Vec::new();
        own.push(root);
        assert(own@ =~= seq![root]);
        let summary = summarize(snapshot, &own);
        let runtime = match item.run_time_ticks {
            Some(ticks) => write_clock(ticks as u128),
            None => String::from_str("?"),
        };
        Announcement {
            title: item.to_string(),
            image_url: to.image_url(&picture, false),
            description: None,
            rating: show_rating(summary.rating),
            runtime,
            resolution: show_list(&summary.resolutions),
            audio_languages: show_list(&summary.audio_languages),
            subtitle_languages: show_optional(&summary.subtitle_languages),
        }
    }
}

/// Adds the identifiers of the items at the positions `at` to `ids`.
fn add_ids(snapshot: &Vec<CatalogItem>, at: &Vec<usize>, ids: &mut Vec<String>)
    requires
        valid_positions(snapshot@, at@),
    ensures
        texts(final(ids)@) == texts(old(ids)@) + ids_at(snapshot@, at@),
{
    let mut i: usize = 0;
    assert(texts(ids@) =~= texts(old(ids)@) + ids_at(snapshot@, at@.take(0)));
    while i < at.len()
        invariant
            i <= at.len(),
            valid_positions(snapshot@, at@),
            texts(ids@) == texts(old(ids)@) + ids_at(snapshot@, at@.take(i as int)),
        decreases at.len() - i,
    {
        let ghost before = ids@;
        let id = snapshot[at[i]].id.clone();
        ids.push(id);
        proof {
            assert(texts(ids@) =~= texts(before).push(id@));
            assert(at@.take(i + 1) =~= at@.take(i as int).push(at@[i as int]));
            assert(ids_at(snapshot@, at@.take(i + 1)) =~= ids_at(
                snapshot@,
                at@.take(i as int),
            ).push(id@));
            assert(texts(ids@) =~= texts(old(ids)@) + ids_at(snapshot@, at@.take(i + 1)));
        }
        i += 1;
    }
    assert(at@.take(at@.len() as int) =~= at@);
}

/// The identifiers that are recorded once `group` was announced.
pub fn commit_ids(snapshot: &Vec<CatalogItem>, group: &AnnouncementGroup) -> (ids: Vec<String>)
    requires
        valid_group(snapshot@, group@),
    ensures
        texts(ids@) == group_ids(snapshot@, group@),
{
    let mut ids: Vec<String> = Vec::new();
    ids.push(snapshot[group.root].id.clone());
    assert(texts(ids@) =~= seq![snapshot@[group.root as int].id@]);
    add_ids(snapshot, &group.seasons, &mut ids);
    add_ids(snapshot, &group.episodes, &mut ids);
    ids
}

/// The description of a season or series speaks of its episodes in ascending
/// order of season and number: it is made of the spans of all descendants of
/// the root, each once, put in that order, and its runs begin in that order.
pub proof fn lemma_description_is_in_order(snapshot: Seq<CatalogItem>, root: usize)
    ensures
        ({
            let spans = sorted_spans(spans_at(snapshot, descendants(snapshot, root)));
            &&& description_of(snapshot, root) == compressed(spans)
            &&& is_ascending(spans)
            &&& spans.to_multiset() == spans_at(snapshot, descendants(snapshot, root)).to_multiset()
            &&& forall|a: int, b: int|
                0 <= a < b < runs(spans).len() ==> keeps_order(
                    runs(spans)[a].head,
                    runs(spans)[b].head,
                )
        }),
{
    let spans = sorted_spans(spans_at(snapshot, descendants(snapshot, root)));
    lemma_sorted_spans_are_ordered(spans_at(snapshot, descendants(snapshot, root)));
    lemma_runs_follow_the_list(spans);
}

} // verus!
