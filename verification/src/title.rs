//! The title of an item and the picture that goes with it.

use crate::catalog::{reads, text_of, CatalogItem, ItemKind};
use crate::ranges::{span, span_of, span_text, write_span};
use crate::text::{decimal, decimal_text};
use vstd::prelude::*;

verus! {

/// What replacing every match of a regular expression in a text gives: the
/// text in which each leftmost, non-overlapping match of `pattern` stands
/// replaced by `replacement`, or nothing where `pattern` is no regular
/// expression that the engine accepts.
pub uninterp spec fn regex_replaced(
    pattern: Seq<char>,
    text: Seq<char>,
    replacement: Seq<char>,
) -> Option<Seq<char>>;

/// Compiles `pattern` with `regex::Regex::new` and replaces its matches in
/// `text` with `regex::Regex::replace_all`.
///
/// Believed, not proved: that the outcome depends on the three texts alone.
/// The engine compiles a pattern and searches a text without reading anything
/// else, so equal arguments give equal results; a pattern that it rejects
/// gives no result. What the result holds is left to the engine.
#[verifier::external_body]
fn replace_all(pattern: &str, text: &str, replacement: &str) -> (replaced: Option<String>)
    ensures
        match replaced {
            Some(result) => regex_replaced(pattern@, text@, replacement@) == Some(result@),
            None => regex_replaced(pattern@, text@, replacement@) is None,
        },
{
    match regex::Regex::new(pattern) {
        Ok(re) => Some(re.replace_all(text, replacement).into_owned()),
        Err(_) => None,
    }
}

/// The pattern of a year in parentheses behind a space, as in `Name (2019)`.
pub open spec fn year_tag() -> Seq<char> {
    " \\(\\d{4}\\)"@
}

/// The first four characters of a date, which write its year. A shorter text
/// is taken whole.
pub open spec fn year_of(date: Seq<char>) -> Seq<char> {
    if date.len() < 4 {
        date
    } else {
        date.subrange(0, 4)
    }
}

/// The note on the years of an item that follows its name in a title:
/// `(2019)` where it began and ended in one year, `(2019-2021)` where the
/// years differ, `(2019-)` where it continues, `(2019)` where only its
/// beginning or its year of production is known, and `(???)` where nothing
/// is.
pub open spec fn year_note(item: CatalogItem) -> Seq<char> {
    match (text_of(item.premiere_date), text_of(item.end_date)) {
        (Some(start), Some(end)) => {
            if year_of(start) == year_of(end) {
                "("@ + year_of(start) + ")"@
            } else {
                "("@ + year_of(start) + "-"@ + year_of(end) + ")"@
            }
        },
        (premiere, _) => {
            if text_of(item.status) == Some("Continuing"@) {
                match premiere {
                    Some(start) => "("@ + year_of(start) + "-)"@,
                    None => "("@ + "????"@ + "-)"@,
                }
            } else {
                match premiere {
                    Some(start) => "("@ + year_of(start) + ")"@,
                    None => match item.production_year {
                        Some(year) => "("@ + decimal(year as nat) + ")"@,
                        None => "(???)"@,
                    },
                }
            }
        },
    }
}

/// The name under which an item is announced: a season and an episode go by
/// the name of their series, `???` where that is unknown; any other item by
/// its own name.
pub open spec fn shown_name(item: CatalogItem) -> Seq<char> {
    match item.kind {
        ItemKind::Season | ItemKind::Episode => match item.series_name {
            Some(series) => series@,
            None => "???"@,
        },
        _ => item.name@,
    }
}

/// A name without the years in parentheses that it may carry. A name without
/// any opening parenthesis is left as it is.
pub open spec fn untagged(name: Seq<char>) -> Seq<char> {
    if name.contains('(') {
        match regex_replaced(year_tag(), name, ""@) {
            Some(stripped) => stripped,
            None => name,
        }
    } else {
        name
    }
}

/// The title that is made of the name `shown` and the note `note` for `item`:
/// for a movie or series the name and the note; for a season those and the
/// name of the season; for an episode those, its number and its name.
pub open spec fn title_text(item: CatalogItem, shown: Seq<char>, note: Seq<char>) -> Seq<char> {
    match item.kind {
        ItemKind::Movie | ItemKind::Series => shown + " "@ + note,
        ItemKind::Season => shown + " "@ + note + " - "@ + item.name@,
        ItemKind::Episode => shown + " "@ + note + " - "@ + span_text(span_of(item)) + " - "@
            + item.name@,
        ItemKind::Special => item.name@ + " "@ + note + " (unknown media type)"@,
    }
}

/// The title under which an item is announced.
pub open spec fn title_of(item: CatalogItem) -> Seq<char> {
    title_text(item, untagged(shown_name(item)), year_note(item))
}

/// The identifier of the picture that goes with an item: that of its season
/// where it names one, else its own.
pub open spec fn image_anchor(item: CatalogItem) -> Seq<char> {
    match item.season_id {
        Some(season) => season@,
        None => item.id@,
    }
}

/// Writes the year of a date.
pub fn year(date: &String) -> (text: String)
    ensures
        text@ == year_of(date@),
{
    let length = date.as_str().unicode_len();
    if length < 4 {
        date.clone()
    } else {
        String::from_str(date.as_str().substring_char(0, 4))
    }
}

/// Writes the note on the years of an item.
pub fn note_years(item: &CatalogItem) -> (note: String)
    ensures
        note@ == year_note(*item),
{
    let mut note = String::from_str("(");
    match (&item.premiere_date, &item.end_date) {
        (Some(start), Some(end)) => {
            let begun = year(start);
            let ended = year(end);
            if begun == ended {
                note.append(begun.as_str());
                note.append(")");
            } else {
                note.append(begun.as_str());
                note.append("-");
                note.append(ended.as_str());
                note.append(")");
            }
            note
        },
        (premiere, _) => {
            let continuing = String::from_str("Continuing");
            if reads(&item.status, &continuing) {
                match premiere {
                    Some(start) => {
                        note.append(year(start).as_str());
                    },
                    None => {
                        note.append("????");
                    },
                }
                note.append("-)");
                note
            } else {
                match premiere {
                    Some(start) => {
                        note.append(year(start).as_str());
                        note.append(")");
                        note
                    },
                    None => match item.production_year {
                        Some(produced) => {
                            note.append(decimal_text(produced as u128).as_str());
                            note.append(")");
                            note
                        },
                        None => String::from_str("(???)"),
                    },
                }
            }
        },
    }
}

/// Whether a text holds the character.
pub fn has_char(text: &str, wanted: char) -> (found: bool)
    ensures
        found == text@.contains(wanted),
{
    let length = text.unicode_len();
    let mut i: usize = 0;
    while i < length
        invariant
            i <= length,
            length == text@.len(),
            forall|k: int| 0 <= k < i ==> text@[k] != wanted,
        decreases length - i,
    {
        if text.get_char(i) == wanted {
            return true;
        }
        i += 1;
    }
    false
}

/// Takes the years in parentheses out of a name.
pub fn strip_year_tags(name: &String) -> (stripped: String)
    ensures
        stripped@ == untagged(name@),
{
    if has_char(name.as_str(), '(') {
        match replace_all(" \\(\\d{4}\\)", name.as_str(), "") {
            Some(stripped) => stripped,
            None => name.clone(),
        }
    } else {
        name.clone()
    }
}

/// Writes the name under which an item is announced.
pub fn name_shown(item: &CatalogItem) -> (name: String)
    ensures
        name@ == shown_name(*item),
{
    match item.kind {
        ItemKind::Season | ItemKind::Episode => match &item.series_name {
            Some(series) => series.clone(),
            None => String::from_str("???"),
        },
        _ => item.name.clone(),
    }
}

/// Writes the title of `item` from the name `shown` and the note `note`.
pub fn compose_title(item: &CatalogItem, shown: &String, note: &String) -> (title: String)
    ensures
        title@ == title_text(*item, shown@, note@),
{
    match item.kind {
        ItemKind::Movie | ItemKind::Series => {
            let mut title = shown.clone();
            title.append(" ");
            title.append(note.as_str());
            title
        },
        ItemKind::Season => {
            let mut title = shown.clone();
            title.append(" ");
            title.append(note.as_str());
            title.append(" - ");
            title.append(item.name.as_str());
            title
        },
        ItemKind::Episode => {
            let mut title = shown.clone();
            title.append(" ");
            title.append(note.as_str());
            title.append(" - ");
            title.append(write_span(&span(item)).as_str());
            title.append(" - ");
            title.append(item.name.as_str());
            title
        },
        ItemKind::Special => {
            let mut title = item.name.clone();
            title.append(" ");
            title.append(note.as_str());
            title.append(" (unknown media type)");
            title
        },
    }
}

impl CatalogItem {
    /// Writes the title under which the item is announced.
    pub fn to_string(&self) -> (text: String)
        ensures
            text@ == title_of(*self),
    {
        let shown = strip_year_tags(&name_shown(self));
        let note = note_years(self);
        compose_title(self, &shown, &note)
    }
}

/// The identifier of the picture that goes with an item.
pub fn anchor(item: &CatalogItem) -> (id: String)
    ensures
        id@ == image_anchor(*item),
{
    match &item.season_id {
        Some(season) => season.clone(),
        None => item.id.clone(),
    }
}

} // verus!
