//! Ordering the episodes of a season or series and describing them in
//! compact form.

use crate::catalog::CatalogItem;
use crate::text::{join, joined, texts, two_digit_text, two_digits};
use vstd::prelude::*;

verus! {

/// The episodes that one item of a season stands for: a single episode, or a
/// block of several that ends at `block_end`.
#[derive(Clone, Copy, Debug, PartialEq, Eq)]
pub struct EpisodeSpan {
    pub season: u32,
    pub first: u32,
    pub block_end: Option<u32>,
}

/// A maximal stretch of spans of which each continues the one before:
/// its first span and, where it has more than one, its last.
#[derive(Clone, Copy, Debug, PartialEq, Eq)]
pub struct EpisodeRun {
    pub head: EpisodeSpan,
    pub tail: Option<EpisodeSpan>,
}

impl EpisodeSpan {
    /// The number of the last episode of the span.
    pub open spec fn end_index(self) -> int {
        match self.block_end {
            Some(end) => end as int,
            None => self.first as int,
        }
    }

    /// The number of the last episode of the span.
    pub fn last_index(&self) -> (end: u32)
        ensures
            end == self.end_index(),
    {
        match self.block_end {
            Some(end) => end,
            None => self.first,
        }
    }
}

impl EpisodeRun {
    /// The last span of the run.
    pub open spec fn closing(self) -> EpisodeSpan {
        match self.tail {
            Some(span) => span,
            None => self.head,
        }
    }

    /// The last span of the run.
    pub fn last_span(&self) -> (span: EpisodeSpan)
        ensures
            span == self.closing(),
    {
        match self.tail {
            Some(span) => span,
            None => self.head,
        }
    }
}

/// The span of an episode; a number that the catalog does not give counts as zero.
pub open spec fn span_of(item: CatalogItem) -> EpisodeSpan {
    EpisodeSpan {
        season: item.season_number() as u32,
        first: item.first_index() as u32,
        block_end: item.index_number_end,
    }
}

/// The span of an episode.
pub fn span(item: &CatalogItem) -> (covered: EpisodeSpan)
    ensures
        covered == span_of(*item),
{
    let season = match item.parent_index_number {
        Some(n) => n,
        None => 0,
    };
    let first = match item.index_number {
        Some(n) => n,
        None => 0,
    };
    EpisodeSpan { season, first, block_end: item.index_number_end }
}

/// `a` may stand before `b`: its season is earlier, or the season is the
/// same and its first episode is not later.
pub open spec fn keeps_order(a: EpisodeSpan, b: EpisodeSpan) -> bool {
    a.season < b.season || (a.season == b.season && a.first <= b.first)
}

/// Every span may stand before all that follow it.
pub open spec fn is_ascending(list: Seq<EpisodeSpan>) -> bool {
    forall|i: int, j: int| 0 <= i < j < list.len() ==> keeps_order(list[i], list[j])
}

/// `sorted` with `span` put behind the last span that may stand before it.
pub open spec fn inserted(sorted: Seq<EpisodeSpan>, span: EpisodeSpan) -> Seq<EpisodeSpan>
    decreases sorted.len(),
{
    if sorted.len() == 0 {
        seq![span]
    } else if keeps_order(sorted.last(), span) {
        sorted.push(span)
    } else {
        inserted(sorted.drop_last(), span).push(sorted.last())
    }
}

/// The spans of `list` by season and first episode; spans that agree in both
/// keep the order in which `list` has them.
pub open spec fn sorted_spans(list: Seq<EpisodeSpan>) -> Seq<EpisodeSpan>
    decreases list.len(),
{
    if list.len() == 0 {
        Seq::empty()
    } else {
        inserted(sorted_spans(list.drop_last()), list.last())
    }
}

/// `next` begins with the episode that follows the last one of `span`.
pub open spec fn continues(span: EpisodeSpan, next: EpisodeSpan) -> bool {
    next.first as int == span.end_index() + 1
}

/// The runs into which a list of spans falls: a span that continues the one
/// before it extends the current run, any other span opens a new run.
pub open spec fn runs(spans: Seq<EpisodeSpan>) -> Seq<EpisodeRun>
    decreases spans.len(),
{
    if spans.len() == 0 {
        Seq::empty()
    } else {
        let prior = runs(spans.drop_last());
        let span = spans.last();
        if prior.len() > 0 && continues(prior.last().closing(), span) {
            prior.drop_last().push(EpisodeRun { head: prior.last().head, tail: Some(span) })
        } else {
            prior.push(EpisodeRun { head: span, tail: None })
        }
    }
}

/// The label of one episode: `S01E02` for episode 2 of season 1.
pub open spec fn episode_label(season: u32, episode: u32) -> Seq<char> {
    "S"@ + two_digits(season as nat) + "E"@ + two_digits(episode as nat)
}

/// How a span is written when it stands alone: `S01E02`, or `S01E02-03` for a
/// block.
pub open spec fn span_text(span: EpisodeSpan) -> Seq<char> {
    match span.block_end {
        Some(end) => episode_label(span.season, span.first) + "-"@ + two_digits(end as nat),
        None => episode_label(span.season, span.first),
    }
}

/// How a run is written: as its only span, or as `S01E02-E05` from the first
/// episode of its first span to the last episode of its last.
pub open spec fn run_text(run: EpisodeRun) -> Seq<char> {
    match run.tail {
        Some(last) => episode_label(run.head.season, run.head.first) + "-E"@ + two_digits(
            last.end_index() as nat,
        ),
        None => span_text(run.head),
    }
}

/// The text of each run of a list.
pub open spec fn run_texts(list: Seq<EpisodeRun>) -> Seq<Seq<char>> {
    list.map_values(|run: EpisodeRun| run_text(run))
}

/// The description of a list of spans: its runs, separated by a comma and a
/// space.
pub open spec fn compressed(spans: Seq<EpisodeSpan>) -> Seq<char> {
    joined(run_texts(runs(spans)), ", "@)
}

/// Whether `a` may stand before `b`.
pub fn in_order(a: &EpisodeSpan, b: &EpisodeSpan) -> (ordered: bool)
    ensures
        ordered == keeps_order(*a, *b),
{
    a.season < b.season || (a.season == b.season && a.first <= b.first)
}

/// Whether `next` begins with the episode after the last one of `span`.
pub fn follows(span: &EpisodeSpan, next: &EpisodeSpan) -> (joins: bool)
    ensures
        joins == continues(*span, *next),
{
    let end: u64 = span.last_index() as u64;
    next.first as u64 == end + 1
}

/// Putting `span` at a place behind which no span may stand before it, and
/// before which the nearest span may, is the insertion that sorting makes.
proof fn lemma_inserted_at(sorted: Seq<EpisodeSpan>, span: EpisodeSpan, k: int)
    requires
        0 <= k <= sorted.len(),
        k > 0 ==> keeps_order(sorted[k - 1], span),
        forall|m: int| k <= m < sorted.len() ==> !keeps_order(#[trigger] sorted[m], span),
    ensures
        inserted(sorted, span) == sorted.insert(k, span),
    decreases sorted.len(),
{
    if sorted.len() == 0 {
        assert(sorted.insert(k, span) =~= seq![span]);
    } else if k == sorted.len() {
        assert(sorted.insert(k, span) =~= sorted.push(span));
    } else {
        assert(!keeps_order(sorted[sorted.len() - 1], span));
        lemma_inserted_at(sorted.drop_last(), span, k);
        assert(sorted.insert(k, span) =~= sorted.drop_last().insert(k, span).push(sorted.last()));
    }
}

/// Puts `span` into an ordered list at its place.
fn insert_span(sorted: &mut Vec<EpisodeSpan>, span: EpisodeSpan)
    ensures
        final(sorted)@ == inserted(old(sorted)@, span),
{
    let mut k: usize = sorted.len();
    while k > 0 && !in_order(&sorted[k - 1], &span)
        invariant
            k <= sorted.len(),
            sorted@ == old(sorted)@,
            forall|m: int| k <= m < sorted.len() ==> !keeps_order(#[trigger] sorted@[m], span),
        decreases k,
    {
        k -= 1;
    }
    proof {
        lemma_inserted_at(sorted@, span, k as int);
    }
    sorted.insert(k, span);
}

/// Orders spans by season and first episode. Spans that agree in both keep
/// their order.
pub fn sort_spans(list: &Vec<EpisodeSpan>) -> (sorted: Vec<EpisodeSpan>)
    ensures
        sorted@ == sorted_spans(list@),
{
    let mut sorted: Vec<EpisodeSpan> = Vec::new();
    let mut i: usize = 0;
    assert(list@.take(0) =~= Seq::<EpisodeSpan>::empty());
    while i < list.len()
        invariant
            i <= list.len(),
            sorted@ == sorted_spans(list@.take(i as int)),
        decreases list.len() - i,
    {
        proof {
            assert(list@.take(i + 1).drop_last() =~= list@.take(i as int));
        }
        insert_span(&mut sorted, list[i]);
        i += 1;
    }
    assert(list@.take(list@.len() as int) =~= list@);
    sorted
}

/// Splits a list of spans into its runs.
pub fn group_runs(spans: &Vec<EpisodeSpan>) -> (found: Vec<EpisodeRun>)
    ensures
        found@ == runs(spans@),
{
    let mut found: Vec<EpisodeRun> = Vec::new();
    let mut i: usize = 0;
    assert(spans@.take(0) =~= Seq::<EpisodeSpan>::empty());
    while i < spans.len()
        invariant
            i <= spans.len(),
            found@ == runs(spans@.take(i as int)),
        decreases spans.len() - i,
    {
        proof {
            assert(spans@.take(i + 1).drop_last() =~= spans@.take(i as int));
        }
        let span = spans[i];
        let mut extended = false;
        if found.len() > 0 {
            let current = found[found.len() - 1];
            if follows(&current.last_span(), &span) {
                found.pop();
                found.push(EpisodeRun { head: current.head, tail: Some(span) });
                extended = true;
            }
        }
        if !extended {
            found.push(EpisodeRun { head: span, tail: None });
        }
        i += 1;
    }
    assert(spans@.take(spans@.len() as int) =~= spans@);
    found
}

/// Writes the label of one episode.
pub fn label_episode(season: u32, episode: u32) -> (text: String)
    ensures
        text@ == episode_label(season, episode),
{
    let mut text = String::from_str("S");
    text.append(two_digit_text(season as u128).as_str());
    text.append("E");
    text.append(two_digit_text(episode as u128).as_str());
    text
}

/// Writes a span that stands alone.
pub fn write_span(span: &EpisodeSpan) -> (text: String)
    ensures
        text@ == span_text(*span),
{
    let mut text = label_episode(span.season, span.first);
    match span.block_end {
        Some(end) => {
            text.append("-");
            text.append(two_digit_text(end as u128).as_str());
        },
        None => {},
    }
    text
}

/// Writes a run.
pub fn write_run(run: &EpisodeRun) -> (text: String)
    ensures
        text@ == run_text(*run),
{
    match run.tail {
        Some(last) => {
            let mut text = label_episode(run.head.season, run.head.first);
            text.append("-E");
            text.append(two_digit_text(last.last_index() as u128).as_str());
            text
        },
        None => write_span(&run.head),
    }
}

/// Describes a list of spans, which the caller has put in order, in compact
/// form: `S01E01-E03, S01E05` for the episodes 1, 2, 3 and 5 of season 1.
pub fn compress(spans: &Vec<EpisodeSpan>) -> (text: String)
    ensures
        text@ == compressed(spans@),
{
    let found = group_runs(spans);
    let mut parts: Vec<String> = Vec::new();
    let mut i: usize = 0;
    while i < found.len()
        invariant
            i <= found.len(),
            parts@.len() == i,
            forall|k: int| 0 <= k < i ==> parts@[k]@ == run_text(found@[k]),
        decreases found.len() - i,
    {
        parts.push(write_run(&found[i]));
        i += 1;
    }
    assert(texts(parts@) =~= run_texts(found@));
    join(&parts, ", ")
}

/// Insertion keeps an ordered list ordered and adds exactly the one span.
proof fn lemma_inserted_keeps_order(sorted: Seq<EpisodeSpan>, span: EpisodeSpan)
    requires
        is_ascending(sorted),
    ensures
        is_ascending(inserted(sorted, span)),
        inserted(sorted, span).to_multiset() == sorted.to_multiset().insert(span),
        inserted(sorted, span).len() == sorted.len() + 1,
    decreases sorted.len(),
{
    let longer = inserted(sorted, span);
    if sorted.len() == 0 {
        vstd::seq_lib::to_multiset_build(sorted, span);
        assert(longer =~= sorted.push(span));
    } else if keeps_order(sorted.last(), span) {
        vstd::seq_lib::to_multiset_build(sorted, span);
        assert forall|i: int, j: int| 0 <= i < j < longer.len() implies keeps_order(
            longer[i],
            longer[j],
        ) by {
            if j == sorted.len() && i < sorted.len() - 1 {
                assert(keeps_order(sorted[i], sorted[sorted.len() - 1]));
            }
        }
    } else {
        let shorter = sorted.drop_last();
        let last = sorted.last();
        assert forall|i: int, j: int| 0 <= i < j < shorter.len() implies keeps_order(
            shorter[i],
            shorter[j],
        ) by {
            assert(keeps_order(sorted[i], sorted[j]));
        }
        lemma_inserted_keeps_order(shorter, span);
        let inner = inserted(shorter, span);
        vstd::seq_lib::to_multiset_build(inner, last);
        vstd::seq_lib::to_multiset_build(shorter, last);
        assert(shorter.push(last) =~= sorted);
        assert(longer.to_multiset() =~= sorted.to_multiset().insert(span));
        assert forall|i: int, j: int| 0 <= i < j < longer.len() implies keeps_order(
            longer[i],
            longer[j],
        ) by {
            if j == inner.len() {
                inner.to_multiset_ensures();
                shorter.to_multiset_ensures();
                assert(inner.contains(inner[i]));
                assert(inner.to_multiset().count(inner[i]) > 0);
                if inner[i] != span {
                    assert(shorter.to_multiset().count(inner[i]) > 0);
                    assert(shorter.contains(inner[i]));
                    let m = choose|m: int| 0 <= m < shorter.len() && shorter[m] == inner[i];
                    assert(keeps_order(sorted[m], sorted[sorted.len() - 1]));
                }
            }
        }
    }
}

/// Sorting puts the spans in order of season and first episode, and neither
/// drops nor adds one.
pub proof fn lemma_sorted_spans_are_ordered(list: Seq<EpisodeSpan>)
    ensures
        is_ascending(sorted_spans(list)),
        sorted_spans(list).to_multiset() == list.to_multiset(),
        sorted_spans(list).len() == list.len(),
    decreases list.len(),
{
    if list.len() == 0 {
        assert(list =~= Seq::<EpisodeSpan>::empty());
    } else {
        lemma_sorted_spans_are_ordered(list.drop_last());
        lemma_inserted_keeps_order(sorted_spans(list.drop_last()), list.last());
        vstd::seq_lib::to_multiset_build(list.drop_last(), list.last());
        assert(list.drop_last().push(list.last()) =~= list);
        assert(sorted_spans(list).to_multiset() =~= list.to_multiset());
    }
}

/// The runs of a list follow the list: the first span of each run and its
/// last span are spans of the list, a list that is not empty ends with the
/// last span of its last run, and in an ordered list the runs begin in
/// ascending order of season and episode.
pub proof fn lemma_runs_follow_the_list(spans: Seq<EpisodeSpan>)
    ensures
        runs(spans).len() <= spans.len(),
        spans.len() > 0 ==> runs(spans).len() > 0 && runs(spans).last().closing() == spans.last(),
        forall|k: int|
            0 <= k < runs(spans).len() ==> spans.contains((#[trigger] runs(spans)[k]).head)
                && spans.contains(runs(spans)[k].closing()),
        is_ascending(spans) ==> forall|a: int, b: int|
            0 <= a < b < runs(spans).len() ==> keeps_order(
                runs(spans)[a].head,
                runs(spans)[b].head,
            ),
    decreases spans.len(),
{
    if spans.len() == 0 {
    } else {
        let shorter = spans.drop_last();
        let span = spans.last();
        let prior = runs(shorter);
        let all = runs(spans);
        lemma_runs_follow_the_list(shorter);
        assert(spans[spans.len() - 1] == span);
        assert forall|k: int| 0 <= k < all.len() implies spans.contains((#[trigger] all[k]).head)
            && spans.contains(all[k].closing()) by {
            if k < prior.len() {
                assert(shorter.contains(prior[k].head));
                let m = choose|m: int| 0 <= m < shorter.len() && shorter[m] == prior[k].head;
                assert(spans[m] == prior[k].head);
                if all[k].closing() != span {
                    assert(shorter.contains(prior[k].closing()));
                    let n = choose|n: int|
                        0 <= n < shorter.len() && shorter[n] == prior[k].closing();
                    assert(spans[n] == prior[k].closing());
                }
            }
        }
        if is_ascending(spans) {
            assert forall|i: int, j: int| 0 <= i < j < shorter.len() implies keeps_order(
                shorter[i],
                shorter[j],
            ) by {
                assert(keeps_order(spans[i], spans[j]));
            }
            assert forall|a: int, b: int| 0 <= a < b < all.len() implies keeps_order(
                all[a].head,
                all[b].head,
            ) by {
                if b < prior.len() {
                    assert(keeps_order(prior[a].head, prior[b].head));
                } else {
                    assert(all[b].head == span);
                    assert(shorter.contains(prior[a].head));
                    let m = choose|m: int| 0 <= m < shorter.len() && shorter[m] == prior[a].head;
                    assert(keeps_order(spans[m], spans[spans.len() - 1]));
                }
            }
        }
    }
}

} // verus!
