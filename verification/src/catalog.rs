//! The items of a catalog listing, and positions in a listing.

use vstd::prelude::*;

verus! {

/// What a catalog entry is.
#[derive(Clone, Copy, Debug, PartialEq, Eq, Structural)]
pub enum ItemKind {
    Movie,
    Series,
    Season,
    Episode,
    Special,
}

/// What a media stream carries. `Other` stands for every kind of stream that
/// no summary reads (attachments, embedded images and the like).
#[derive(Clone, Copy, Debug, PartialEq, Eq, Structural)]
pub enum StreamKind {
    Video,
    Audio,
    Subtitle,
    Other,
}

/// One stream of an item's media file.
#[derive(Clone, Debug, PartialEq, Eq)]
pub struct MediaStream {
    pub kind: StreamKind,
    pub language: Option<String>,
    pub height: Option<u32>,
    pub is_interlaced: bool,
}

/// One entry of the catalog listing.
///
/// `community_rating` is held in hundredths of a point (`775` is a rating of
/// 7.75); zero means that nobody has rated the item. `run_time_ticks` counts
/// units of 100 nanoseconds.
#[derive(Clone, Debug, PartialEq, Eq)]
pub struct CatalogItem {
    pub name: String,
    pub id: String,
    pub index_number: Option<u32>,
    pub parent_index_number: Option<u32>,
    pub index_number_end: Option<u32>,
    pub kind: ItemKind,
    pub series_name: Option<String>,
    pub series_id: Option<String>,
    pub season_name: Option<String>,
    pub season_id: Option<String>,
    pub media_streams: Option<Vec<MediaStream>>,
    pub community_rating: Option<u32>,
    pub run_time_ticks: Option<u64>,
    pub premiere_date: Option<String>,
    pub production_year: Option<u32>,
    pub status: Option<String>,
    pub end_date: Option<String>,
}

/// The characters of an optional text.
pub open spec fn text_of(value: Option<String>) -> Option<Seq<char>> {
    match value {
        Some(text) => Some(text@),
        None => None,
    }
}

/// Whether an optional text is present and reads exactly `wanted`.
pub fn reads(value: &Option<String>, wanted: &String) -> (same: bool)
    ensures
        same == (text_of(*value) == Some(wanted@)),
{
    match value {
        Some(text) => *text == *wanted,
        None => false,
    }
}

/// The name of a kind of item.
pub open spec fn kind_name(kind: ItemKind) -> Seq<char> {
    match kind {
        ItemKind::Movie => "Movie"@,
        ItemKind::Series => "Series"@,
        ItemKind::Season => "Season"@,
        ItemKind::Episode => "Episode"@,
        ItemKind::Special => "Special"@,
    }
}

impl ItemKind {
    /// Writes the name of the kind, as the catalog writes it.
    pub fn to_string(&self) -> (name: String)
        ensures
            name@ == kind_name(*self),
    {
        match self {
            ItemKind::Movie => String::from_str("Movie"),
            ItemKind::Episode => String::from_str("Episode"),
            ItemKind::Season => String::from_str("Season"),
            ItemKind::Series => String::from_str("Series"),
            ItemKind::Special => String::from_str("Special"),
        }
    }

    /// Episodes and specials are the leaves below a season.
    pub open spec fn is_leaf(self) -> bool {
        self == ItemKind::Episode || self == ItemKind::Special
    }

    /// Whether the kind is an episode or a special.
    pub fn leaf(self) -> (leaf: bool)
        ensures
            leaf == self.is_leaf(),
    {
        match self {
            ItemKind::Episode => true,
            ItemKind::Special => true,
            _ => false,
        }
    }
}

impl CatalogItem {
    /// An item of which only kind, identifier and name are known.
    pub fn new(kind: ItemKind, id: &str, name: &str) -> (item: CatalogItem)
        ensures
            item.kind == kind,
            item.id@ == id@,
            item.name@ == name@,
            item.index_number is None,
            item.parent_index_number is None,
            item.index_number_end is None,
            item.series_name is None,
            item.series_id is None,
            item.season_name is None,
            item.season_id is None,
            item.media_streams is None,
            item.community_rating is None,
            item.run_time_ticks is None,
            item.premiere_date is None,
            item.production_year is None,
            item.status is None,
            item.end_date is None,
    {
        CatalogItem {
            name: String::from_str(name),
            id: String::from_str(id),
            index_number: None,
            parent_index_number: None,
            index_number_end: None,
            kind,
            series_name: None,
            series_id: None,
            season_name: None,
            season_id: None,
            media_streams: None,
            community_rating: None,
            run_time_ticks: None,
            premiere_date: None,
            production_year: None,
            status: None,
            end_date: None,
        }
    }

    /// The season number, zero where the catalog gives none.
    pub open spec fn season_number(self) -> nat {
        match self.parent_index_number {
            Some(n) => n as nat,
            None => 0,
        }
    }

    /// The number of the (first) episode, zero where the catalog gives none.
    pub open spec fn first_index(self) -> nat {
        match self.index_number {
            Some(n) => n as nat,
            None => 0,
        }
    }

    /// The number of the last episode that the item covers: the end of a
    /// multi-episode block, else the episode's own number.
    pub open spec fn last_index(self) -> nat {
        match self.index_number_end {
            Some(n) => n as nat,
            None => self.first_index(),
        }
    }
}

/// The positions `0, 1, .., n - 1` of a listing of `n` items.
pub open spec fn positions(n: nat) -> Seq<usize> {
    Seq::new(n, |i: int| i as usize)
}

/// Every position of `at` lies inside the listing.
pub open spec fn valid_positions(snapshot: Seq<CatalogItem>, at: Seq<usize>) -> bool {
    forall|k: int| 0 <= k < at.len() ==> #[trigger] at[k] < snapshot.len()
}

/// The items that stand at the given positions.
pub open spec fn items_at(snapshot: Seq<CatalogItem>, at: Seq<usize>) -> Seq<CatalogItem> {
    at.map_values(|p: usize| snapshot[p as int])
}

/// The positions of a listing of `n` items.
pub fn all_positions(n: usize) -> (all: Vec<usize>)
    ensures
        all@ == positions(n as nat),
{
    let mut all: Vec<usize> = Vec::new();
    let mut i: usize = 0;
    while i < n
        invariant
            i <= n,
            all@.len() == i,
            forall|k: int| 0 <= k < i ==> all@[k] == k,
        decreases n - i,
    {
        all.push(i);
        i += 1;
    }
    assert(all@ =~= positions(n as nat));
    all
}

} // verus!
