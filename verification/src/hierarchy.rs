//! Grouping the candidates of a pass along the hierarchy of series, seasons
//! and episodes.

use crate::catalog::{
    all_positions, positions, reads, text_of, valid_positions, CatalogItem, ItemKind,
};
use vstd::prelude::*;

verus! {

/// One outgoing announcement: a single item, or a season or series together
/// with the candidates that it covers. All fields are positions in the
/// listing that the group was resolved against.
#[derive(Clone, Debug, PartialEq, Eq)]
pub struct AnnouncementGroup {
    /// The item that the announcement is about.
    pub root: usize,
    /// The candidate seasons that a series covers.
    pub seasons: Vec<usize>,
    /// The candidate episodes and specials that a season or series covers.
    pub episodes: Vec<usize>,
}

/// The mathematical content of an [`AnnouncementGroup`].
pub struct GroupView {
    pub root: usize,
    pub seasons: Seq<usize>,
    pub episodes: Seq<usize>,
}

impl View for AnnouncementGroup {
    type V = GroupView;

    open spec fn view(&self) -> GroupView {
        GroupView { root: self.root, seasons: self.seasons@, episodes: self.episodes@ }
    }
}

/// The content of each group of a list.
pub open spec fn group_views(groups: Seq<AnnouncementGroup>) -> Seq<GroupView> {
    groups.map_values(|group: AnnouncementGroup| group@)
}

/// Position `p` holds an item of the given kind.
pub open spec fn has_kind(snapshot: Seq<CatalogItem>, p: usize, kind: ItemKind) -> bool {
    p < snapshot.len() && snapshot[p as int].kind == kind
}

/// Position `p` holds an episode or a special.
pub open spec fn is_leaf_at(snapshot: Seq<CatalogItem>, p: usize) -> bool {
    p < snapshot.len() && snapshot[p as int].kind.is_leaf()
}

/// The episode or special at `leaf` names the season at `season` as its parent.
pub open spec fn names_season(snapshot: Seq<CatalogItem>, leaf: usize, season: usize) -> bool {
    &&& is_leaf_at(snapshot, leaf)
    &&& has_kind(snapshot, season, ItemKind::Season)
    &&& text_of(snapshot[leaf as int].season_id) == Some(snapshot[season as int].id@)
}

/// The season at `season` names the series at `series` as its parent.
pub open spec fn names_series(snapshot: Seq<CatalogItem>, season: usize, series: usize) -> bool {
    &&& has_kind(snapshot, season, ItemKind::Season)
    &&& has_kind(snapshot, series, ItemKind::Series)
    &&& text_of(snapshot[season as int].series_id) == Some(snapshot[series as int].id@)
}

/// The episode or special at `leaf` lies below the item at `root`: it is an
/// episode of the season at `root`, or of some season of the listing that
/// belongs to the series at `root`.
pub open spec fn lies_below(snapshot: Seq<CatalogItem>, leaf: usize, root: usize) -> bool {
    names_season(snapshot, leaf, root) || exists|season: usize|
        #[trigger] names_series(snapshot, season, root) && names_season(snapshot, leaf, season)
}

/// The episode or special at `leaf` lies below some candidate.
pub open spec fn is_covered(snapshot: Seq<CatalogItem>, found: Seq<usize>, leaf: usize) -> bool {
    exists|j: int| 0 <= j < found.len() && lies_below(snapshot, leaf, #[trigger] found[j])
}

/// The series of the season at `season` is among the candidates.
pub open spec fn series_listed(
    snapshot: Seq<CatalogItem>,
    found: Seq<usize>,
    season: usize,
) -> bool {
    exists|j: int| 0 <= j < found.len() && names_series(snapshot, season, #[trigger] found[j])
}

/// Some candidate episode or special does not say which season it belongs to.
pub open spec fn unresolved(snapshot: Seq<CatalogItem>, found: Seq<usize>) -> bool {
    exists|j: int|
        0 <= j < found.len() && is_leaf_at(snapshot, #[trigger] found[j])
            && snapshot[found[j] as int].season_id is None
}

/// The test for an episode or special that no candidate covers.
pub open spec fn orphan_test(snapshot: Seq<CatalogItem>, found: Seq<usize>) -> spec_fn(
    usize,
) -> bool {
    |p: usize| is_leaf_at(snapshot, p) && !is_covered(snapshot, found, p)
}

/// The test for a season whose series is no candidate.
pub open spec fn lone_season_test(snapshot: Seq<CatalogItem>, found: Seq<usize>) -> spec_fn(
    usize,
) -> bool {
    |p: usize| has_kind(snapshot, p, ItemKind::Season) && !series_listed(snapshot, found, p)
}

/// The test for a movie or a series.
pub open spec fn top_test(snapshot: Seq<CatalogItem>) -> spec_fn(usize) -> bool {
    |p: usize| has_kind(snapshot, p, ItemKind::Movie) || has_kind(snapshot, p, ItemKind::Series)
}

/// The test for a season of the series at `root`.
pub open spec fn season_test(snapshot: Seq<CatalogItem>, root: usize) -> spec_fn(usize) -> bool {
    |p: usize| names_series(snapshot, p, root)
}

/// The test for an episode or special below the item at `root`.
pub open spec fn below_test(snapshot: Seq<CatalogItem>, root: usize) -> spec_fn(usize) -> bool {
    |p: usize| lies_below(snapshot, p, root)
}

/// The seasons of the series at `root` in the whole listing, announced
/// before or not.
pub open spec fn seasons_listed(snapshot: Seq<CatalogItem>, root: usize) -> Seq<usize> {
    positions(snapshot.len()).filter(season_test(snapshot, root))
}

/// The episodes and specials of the whole listing that lie below the item at
/// `root`, announced before or not, in the order of the listing.
pub open spec fn descendants(snapshot: Seq<CatalogItem>, root: usize) -> Seq<usize> {
    positions(snapshot.len()).filter(below_test(snapshot, root))
}

/// The roots of the groups, in the order in which the groups are announced:
/// orphaned episodes, then seasons, then movies and series, each in the order
/// of the candidates.
pub open spec fn roots(snapshot: Seq<CatalogItem>, found: Seq<usize>) -> Seq<usize> {
    found.filter(orphan_test(snapshot, found)) + found.filter(lone_season_test(snapshot, found))
        + found.filter(top_test(snapshot))
}

/// The group that is announced for the candidate at `root`: the root with
/// the candidate seasons of the series at `root` and with the candidate
/// episodes and specials that lie below `root`.
pub open spec fn group_of(snapshot: Seq<CatalogItem>, found: Seq<usize>, root: usize) -> GroupView {
    GroupView {
        root,
        seasons: found.filter(season_test(snapshot, root)),
        episodes: found.filter(below_test(snapshot, root)),
    }
}

/// The groups into which the candidates `found` of a pass fall.
///
/// While any candidate episode or special lacks its season, nothing is
/// grouped. Otherwise each movie and each series is a group; each season is a
/// group unless its series is one; an episode or special joins the group of
/// the season or series that it lies below, and is a group of its own where
/// no candidate covers it.
pub open spec fn grouping(snapshot: Seq<CatalogItem>, found: Seq<usize>) -> Seq<GroupView> {
    if unresolved(snapshot, found) {
        Seq::empty()
    } else {
        roots(snapshot, found).map_values(|root: usize| group_of(snapshot, found, root))
    }
}

/// The position `p` belongs to the group, as its root, as one of its seasons
/// or as one of its episodes.
pub open spec fn is_member(group: GroupView, p: usize) -> bool {
    group.root == p || group.seasons.contains(p) || group.episodes.contains(p)
}

/// The candidate at position `p` belongs to some group of the pass.
pub open spec fn is_grouped(snapshot: Seq<CatalogItem>, found: Seq<usize>, p: usize) -> bool {
    exists|g: int|
        0 <= g < grouping(snapshot, found).len() && is_member(
            #[trigger] grouping(snapshot, found)[g],
            p,
        )
}

/// No two items of the listing share an identifier.
pub open spec fn distinct_ids(snapshot: Seq<CatalogItem>) -> bool {
    forall|i: int, j: int|
        0 <= i < snapshot.len() && 0 <= j < snapshot.len() && snapshot[i].id@ == snapshot[j].id@
            ==> i == j
}

/// All positions of the group lie inside the listing.
pub open spec fn valid_group(snapshot: Seq<CatalogItem>, group: GroupView) -> bool {
    &&& group.root < snapshot.len()
    &&& valid_positions(snapshot, group.seasons)
    &&& valid_positions(snapshot, group.episodes)
}

/// Whether position `p` holds an item of the given kind.
pub fn kind_at(snapshot: &Vec<CatalogItem>, p: usize, kind: ItemKind) -> (same: bool)
    ensures
        same == has_kind(snapshot@, p, kind),
{
    p < snapshot.len() && snapshot[p].kind == kind
}

/// Whether position `p` holds an episode or a special.
pub fn leaf_at(snapshot: &Vec<CatalogItem>, p: usize) -> (leaf: bool)
    ensures
        leaf == is_leaf_at(snapshot@, p),
{
    p < snapshot.len() && snapshot[p].kind.leaf()
}

/// Whether the episode or special at `leaf` names the season at `season`.
pub fn season_named(snapshot: &Vec<CatalogItem>, leaf: usize, season: usize) -> (named: bool)
    ensures
        named == names_season(snapshot@, leaf, season),
{
    leaf_at(snapshot, leaf) && kind_at(snapshot, season, ItemKind::Season) && reads(
        &snapshot[leaf].season_id,
        &snapshot[season].id,
    )
}

/// Whether the season at `season` names the series at `series`.
pub fn series_named(snapshot: &Vec<CatalogItem>, season: usize, series: usize) -> (named: bool)
    ensures
        named == names_series(snapshot@, season, series),
{
    kind_at(snapshot, season, ItemKind::Season) && kind_at(snapshot, series, ItemKind::Series)
        && reads(&snapshot[season].series_id, &snapshot[series].id)
}

/// Whether the series of the season at `season` is a candidate.
pub fn series_is_listed(snapshot: &Vec<CatalogItem>, found: &Vec<usize>, season: usize) -> (listed:
    bool)
    ensures
        listed == series_listed(snapshot@, found@, season),
{
    let mut j: usize = 0;
    while j < found.len()
        invariant
            j <= found.len(),
            forall|k: int| 0 <= k < j ==> !names_series(snapshot@, season, #[trigger] found@[k]),
        decreases found.len() - j,
    {
        if series_named(snapshot, season, found[j]) {
            return true;
        }
        j += 1;
    }
    false
}

/// Whether some candidate episode or special lacks its season.
pub fn is_unresolved(snapshot: &Vec<CatalogItem>, found: &Vec<usize>) -> (open: bool)
    ensures
        open == unresolved(snapshot@, found@),
{
    let mut j: usize = 0;
    while j < found.len()
        invariant
            j <= found.len(),
            forall|k: int|
                0 <= k < j ==> !(is_leaf_at(snapshot@, #[trigger] found@[k])
                    && snapshot@[found@[k] as int].season_id is None),
        decreases found.len() - j,
    {
        if leaf_at(snapshot, found[j]) && snapshot[found[j]].season_id.is_none() {
            return true;
        }
        j += 1;
    }
    false
}

/// The seasons of the series at `root` in the whole listing.
pub fn seasons_of(snapshot: &Vec<CatalogItem>, root: usize) -> (seasons: Vec<usize>)
    ensures
        seasons@ == seasons_listed(snapshot@, root),
{
    let all = all_positions(snapshot.len());
    let ghost test = season_test(snapshot@, root);
    let mut seasons: Vec<usize> = Vec::new();
    let mut i: usize = 0;
    proof {
        reveal(Seq::filter);
        assert(all@.take(0).filter(test) =~= Seq::<usize>::empty());
    }
    while i < all.len()
        invariant
            i <= all.len(),
            all@ == positions(snapshot@.len()),
            test == season_test(snapshot@, root),
            seasons@ == all@.take(i as int).filter(test),
        decreases all.len() - i,
    {
        proof {
            assert(all@.take(i + 1) =~= all@.take(i as int).push(all@[i as int]));
            all@.take(i as int).lemma_filter_push(all@[i as int], test);
        }
        if series_named(snapshot, all[i], root) {
            seasons.push(all[i]);
        }
        i += 1;
    }
    assert(all@.take(all@.len() as int) =~= all@);
    seasons
}

/// Whether the episode or special at `leaf` lies below the item at `root`,
/// of which `seasons` are the seasons in the listing.
fn is_below(snapshot: &Vec<CatalogItem>, seasons: &Vec<usize>, leaf: usize, root: usize) -> (below:
    bool)
    requires
        seasons@ == seasons_listed(snapshot@, root),
    ensures
        below == lies_below(snapshot@, leaf, root),
{
    if season_named(snapshot, leaf, root) {
        return true;
    }
    let mut k: usize = 0;
    while k < seasons.len()
        invariant
            k <= seasons.len(),
            seasons@ == seasons_listed(snapshot@, root),
            forall|m: int| 0 <= m < k ==> !names_season(snapshot@, leaf, #[trigger] seasons@[m]),
        decreases seasons.len() - k,
    {
        if season_named(snapshot, leaf, seasons[k]) {
            proof {
                positions(snapshot@.len()).lemma_filter_pred(
                    season_test(snapshot@, root),
                    k as int,
                );
            }
            return true;
        }
        k += 1;
    }
    proof {
        if lies_below(snapshot@, leaf, root) {
            let season = choose|season: usize|
                #[trigger] names_series(snapshot@, season, root) && names_season(
                    snapshot@,
                    leaf,
                    season,
                );
            let all = positions(snapshot@.len());
            assert(all[season as int] == season);
            all.lemma_filter_contains(season_test(snapshot@, root), season as int);
            let m = choose|m: int| 0 <= m < seasons@.len() && seasons@[m] == season;
            assert(names_season(snapshot@, leaf, seasons@[m]));
        }
    }
    false
}

/// The positions of `list` that hold an episode or special below the item
/// at `root`.
pub fn episodes_below(snapshot: &Vec<CatalogItem>, list: &Vec<usize>, root: usize) -> (below: Vec<
    usize,
>)
    ensures
        below@ == list@.filter(below_test(snapshot@, root)),
{
    let seasons = seasons_of(snapshot, root);
    let ghost test = below_test(snapshot@, root);
    let mut below: Vec<usize> = Vec::new();
    let mut i: usize = 0;
    proof {
        reveal(Seq::filter);
        assert(list@.take(0).filter(test) =~= Seq::<usize>::empty());
    }
    while i < list.len()
        invariant
            i <= list.len(),
            seasons@ == seasons_listed(snapshot@, root),
            test == below_test(snapshot@, root),
            below@ == list@.take(i as int).filter(test),
        decreases list.len() - i,
    {
        proof {
            assert(list@.take(i + 1) =~= list@.take(i as int).push(list@[i as int]));
            list@.take(i as int).lemma_filter_push(list@[i as int], test);
        }
        if is_below(snapshot, &seasons, list[i], root) {
            below.push(list[i]);
        }
        i += 1;
    }
    assert(list@.take(list@.len() as int) =~= list@);
    below
}

/// The episodes and specials of the whole listing that lie below the item at
/// `root`.
pub fn descendant_episodes(snapshot: &Vec<CatalogItem>, root: usize) -> (below: Vec<usize>)
    ensures
        below@ == descendants(snapshot@, root),
        valid_positions(snapshot@, below@),
{
    let all = all_positions(snapshot.len());
    let below = episodes_below(snapshot, &all, root);
    proof {
        assert forall|k: int| 0 <= k < below@.len() implies #[trigger] below@[k]
            < snapshot@.len() by {
            all@.lemma_filter_pred(below_test(snapshot@, root), k);
        }
    }
    below
}

/// The candidate seasons of the series at `root`.
pub fn seasons_among(snapshot: &Vec<CatalogItem>, found: &Vec<usize>, root: usize) -> (seasons: Vec<
    usize,
>)
    ensures
        seasons@ == found@.filter(season_test(snapshot@, root)),
{
    let ghost test = season_test(snapshot@, root);
    let mut seasons: Vec<usize> = Vec::new();
    let mut j: usize = 0;
    proof {
        reveal(Seq::filter);
        assert(found@.take(0).filter(test) =~= Seq::<usize>::empty());
    }
    while j < found.len()
        invariant
            j <= found.len(),
            test == season_test(snapshot@, root),
            seasons@ == found@.take(j as int).filter(test),
        decreases found.len() - j,
    {
        proof {
            assert(found@.take(j + 1) =~= found@.take(j as int).push(found@[j as int]));
            found@.take(j as int).lemma_filter_push(found@[j as int], test);
        }
        if series_named(snapshot, found[j], root) {
            seasons.push(found[j]);
        }
        j += 1;
    }
    assert(found@.take(found@.len() as int) =~= found@);
    seasons
}

/// The candidate seasons whose series is no candidate.
pub fn lone_seasons(snapshot: &Vec<CatalogItem>, found: &Vec<usize>) -> (seasons: Vec<usize>)
    ensures
        seasons@ == found@.filter(lone_season_test(snapshot@, found@)),
{
    let ghost test = lone_season_test(snapshot@, found@);
    let mut seasons: Vec<usize> = Vec::new();
    let mut j: usize = 0;
    proof {
        reveal(Seq::filter);
        assert(found@.take(0).filter(test) =~= Seq::<usize>::empty());
    }
    while j < found.len()
        invariant
            j <= found.len(),
            test == lone_season_test(snapshot@, found@),
            seasons@ == found@.take(j as int).filter(test),
        decreases found.len() - j,
    {
        proof {
            assert(found@.take(j + 1) =~= found@.take(j as int).push(found@[j as int]));
            found@.take(j as int).lemma_filter_push(found@[j as int], test);
        }
        if kind_at(snapshot, found[j], ItemKind::Season) && !series_is_listed(
            snapshot,
            found,
            found[j],
        ) {
            seasons.push(found[j]);
        }
        j += 1;
    }
    assert(found@.take(found@.len() as int) =~= found@);
    seasons
}

/// The candidate movies and series.
pub fn tops(snapshot: &Vec<CatalogItem>, found: &Vec<usize>) -> (chosen: Vec<usize>)
    ensures
        chosen@ == found@.filter(top_test(snapshot@)),
{
    let ghost test = top_test(snapshot@);
    let mut chosen: Vec<usize> = Vec::new();
    let mut j: usize = 0;
    proof {
        reveal(Seq::filter);
        assert(found@.take(0).filter(test) =~= Seq::<usize>::empty());
    }
    while j < found.len()
        invariant
            j <= found.len(),
            test == top_test(snapshot@),
            chosen@ == found@.take(j as int).filter(test),
        decreases found.len() - j,
    {
        proof {
            assert(found@.take(j + 1) =~= found@.take(j as int).push(found@[j as int]));
            found@.take(j as int).lemma_filter_push(found@[j as int], test);
        }
        if kind_at(snapshot, found[j], ItemKind::Movie) || kind_at(
            snapshot,
            found[j],
            ItemKind::Series,
        ) {
            chosen.push(found[j]);
        }
        j += 1;
    }
    assert(found@.take(found@.len() as int) =~= found@);
    chosen
}

/// For each candidate the seasons of the listing that belong to it.
fn season_tables(snapshot: &Vec<CatalogItem>, found: &Vec<usize>) -> (tables: Vec<Vec<usize>>)
    ensures
        tables@.len() == found@.len(),
        forall|j: int|
            0 <= j < found@.len() ==> (#[trigger] tables@[j])@ == seasons_listed(
                snapshot@,
                found@[j],
            ),
{
    let mut tables: Vec<Vec<usize>> = Vec::new();
    let mut j: usize = 0;
    while j < found.len()
        invariant
            j <= found.len(),
            tables@.len() == j,
            forall|k: int|
                0 <= k < j ==> (#[trigger] tables@[k])@ == seasons_listed(snapshot@, found@[k]),
        decreases found.len() - j,
    {
        tables.push(seasons_of(snapshot, found[j]));
        j += 1;
    }
    tables
}

/// Whether the episode or special at `leaf` lies below some candidate.
fn covered(
    snapshot: &Vec<CatalogItem>,
    found: &Vec<usize>,
    tables: &Vec<Vec<usize>>,
    leaf: usize,
) -> (below: bool)
    requires
        tables@.len() == found@.len(),
        forall|j: int|
            0 <= j < found@.len() ==> (#[trigger] tables@[j])@ == seasons_listed(
                snapshot@,
                found@[j],
            ),
    ensures
        below == is_covered(snapshot@, found@, leaf),
{
    let mut j: usize = 0;
    while j < found.len()
        invariant
            j <= found.len(),
            tables@.len() == found@.len(),
            forall|k: int|
                0 <= k < found@.len() ==> (#[trigger] tables@[k])@ == seasons_listed(
                    snapshot@,
                    found@[k],
                ),
            forall|k: int| 0 <= k < j ==> !lies_below(snapshot@, leaf, #[trigger] found@[k]),
        decreases found.len() - j,
    {
        if is_below(snapshot, &tables[j], leaf, found[j]) {
            return true;
        }
        j += 1;
    }
    false
}

/// The candidate episodes and specials that no candidate covers.
pub fn orphans(snapshot: &Vec<CatalogItem>, found: &Vec<usize>) -> (alone: Vec<usize>)
    ensures
        alone@ == found@.filter(orphan_test(snapshot@, found@)),
{
    let tables = season_tables(snapshot, found);
    let ghost test = orphan_test(snapshot@, found@);
    let mut alone: Vec<usize> = Vec::new();
    let mut j: usize = 0;
    proof {
        reveal(Seq::filter);
        assert(found@.take(0).filter(test) =~= Seq::<usize>::empty());
    }
    while j < found.len()
        invariant
            j <= found.len(),
            tables@.len() == found@.len(),
            forall|k: int|
                0 <= k < found@.len() ==> (#[trigger] tables@[k])@ == seasons_listed(
                    snapshot@,
                    found@[k],
                ),
            test == orphan_test(snapshot@, found@),
            alone@ == found@.take(j as int).filter(test),
        decreases found.len() - j,
    {
        proof {
            assert(found@.take(j + 1) =~= found@.take(j as int).push(found@[j as int]));
            found@.take(j as int).lemma_filter_push(found@[j as int], test);
        }
        if leaf_at(snapshot, found[j]) && !covered(snapshot, found, &tables, found[j]) {
            alone.push(found[j]);
        }
        j += 1;
    }
    assert(found@.take(found@.len() as int) =~= found@);
    alone
}

/// Adds the group of each root of `from` to `groups`.
fn add_groups(
    snapshot: &Vec<CatalogItem>,
    found: &Vec<usize>,
    from: &Vec<usize>,
    groups: &mut Vec<AnnouncementGroup>,
)
    ensures
        group_views(final(groups)@) == group_views(old(groups)@) + from@.map_values(
            |root: usize| group_of(snapshot@, found@, root),
        ),
{
    let ghost of = |root: usize| group_of(snapshot@, found@, root);
    let mut k: usize = 0;
    assert(group_views(groups@) =~= group_views(old(groups)@) + from@.take(0).map_values(of));
    while k < from.len()
        invariant
            k <= from.len(),
            of == |root: usize| group_of(snapshot@, found@, root),
            group_views(groups@) == group_views(old(groups)@) + from@.take(k as int).map_values(of),
        decreases from.len() - k,
    {
        let root = from[k];
        let seasons = seasons_among(snapshot, found, root);
        let episodes = episodes_below(snapshot, found, root);
        let ghost before = groups@;
        let group = AnnouncementGroup { root, seasons, episodes };
        assert(group@ == of(root));
        groups.push(group);
        proof {
            assert(group_views(groups@) =~= group_views(before).push(of(root)));
            assert(from@.take(k + 1).map_values(of) =~= from@.take(k as int).map_values(of).push(
                of(root),
            ));
        }
        k += 1;
    }
    assert(from@.take(from@.len() as int) =~= from@);
}

/// Groups the candidates `found` of a pass into announcements, in the order
/// in which they are to be announced.
pub fn resolve(snapshot: &Vec<CatalogItem>, found: &Vec<usize>) -> (groups: Vec<AnnouncementGroup>)
    ensures
        group_views(groups@) == grouping(snapshot@, found@),
        forall|g: int| 0 <= g < groups@.len() ==> valid_group(snapshot@, (#[trigger] groups@[g])@),
{
    let mut groups: Vec<AnnouncementGroup> = Vec::new();
    if is_unresolved(snapshot, found) {
        assert(group_views(groups@) =~= Seq::<GroupView>::empty());
        return groups;
    }
    let alone = orphans(snapshot, found);
    let seasons = lone_seasons(snapshot, found);
    let chosen = tops(snapshot, found);
    let ghost of = |root: usize| group_of(snapshot@, found@, root);
    assert(group_views(groups@) =~= Seq::<GroupView>::empty());
    add_groups(snapshot, found, &alone, &mut groups);
    add_groups(snapshot, found, &seasons, &mut groups);
    add_groups(snapshot, found, &chosen, &mut groups);
    proof {
        assert(group_views(groups@) =~= (alone@ + seasons@ + chosen@).map_values(of));
        assert forall|g: int| 0 <= g < groups@.len() implies valid_group(
            snapshot@,
            (#[trigger] groups@[g])@,
        ) by {
            assert(group_views(groups@)[g] == groups@[g]@);
            lemma_groups_respect_parents(snapshot@, found@, g);
        }
    }
    groups
}

/// Every root of a pass that is not deferred has its group.
proof fn lemma_root_has_group(snapshot: Seq<CatalogItem>, found: Seq<usize>, root: usize)
    requires
        !unresolved(snapshot, found),
        roots(snapshot, found).contains(root),
    ensures
        exists|g: int|
            0 <= g < grouping(snapshot, found).len() && #[trigger] grouping(snapshot, found)[g]
                == group_of(snapshot, found, root),
{
    let all = roots(snapshot, found);
    let g = choose|g: int| 0 <= g < all.len() && all[g] == root;
    assert(grouping(snapshot, found)[g] == group_of(snapshot, found, root));
}

/// What a test lets through is a member of the list that passes the test.
proof fn lemma_filtered_passes(list: Seq<usize>, test: spec_fn(usize) -> bool, k: int)
    requires
        0 <= k < list.filter(test).len(),
    ensures
        test(list.filter(test)[k]),
        list.contains(list.filter(test)[k]),
{
    list.lemma_filter_pred(test, k);
    assert(list.filter(test).contains(list.filter(test)[k]));
    list.lemma_filter_contains_rev(test, list.filter(test)[k]);
}

/// While a candidate episode or special lacks its season, the pass announces
/// nothing at all.
pub proof fn lemma_unresolved_defers_everything(snapshot: Seq<CatalogItem>, found: Seq<usize>)
    requires
        unresolved(snapshot, found),
    ensures
        grouping(snapshot, found).len() == 0,
        forall|p: usize| !is_grouped(snapshot, found, p),
{
}

/// The members of a group are candidates inside the listing that stand in
/// the parent relation which the group declares: the seasons of a group name
/// its root, a series, as their series; each episode or special of a group
/// names as its season either the root or a season of the listing that
/// belongs to the root, and so is among the descendants of the root in the
/// whole listing.
pub proof fn lemma_groups_respect_parents(snapshot: Seq<CatalogItem>, found: Seq<usize>, g: int)
    requires
        0 <= g < grouping(snapshot, found).len(),
    ensures
        ({
            let group = grouping(snapshot, found)[g];
            &&& found.contains(group.root)
            &&& group.root < snapshot.len()
            &&& valid_positions(snapshot, group.seasons)
            &&& valid_positions(snapshot, group.episodes)
            &&& forall|k: int|
                0 <= k < group.seasons.len() ==> found.contains(#[trigger] group.seasons[k])
                    && names_series(snapshot, group.seasons[k], group.root)
            &&& forall|k: int|
                0 <= k < group.episodes.len() ==> found.contains(#[trigger] group.episodes[k])
                    && lies_below(snapshot, group.episodes[k], group.root) && descendants(
                    snapshot,
                    group.root,
                ).contains(group.episodes[k])
        }),
{
    let all = roots(snapshot, found);
    let root = all[g];
    let group = grouping(snapshot, found)[g];
    assert(group == group_of(snapshot, found, root));
    let alone = found.filter(orphan_test(snapshot, found));
    let seasons = found.filter(lone_season_test(snapshot, found));
    if g < alone.len() {
        lemma_filtered_passes(found, orphan_test(snapshot, found), g);
    } else if g < alone.len() + seasons.len() {
        lemma_filtered_passes(found, lone_season_test(snapshot, found), g - alone.len());
    } else {
        lemma_filtered_passes(found, top_test(snapshot), g - alone.len() - seasons.len());
    }
    assert forall|k: int| 0 <= k < group.seasons.len() implies found.contains(
        #[trigger] group.seasons[k],
    ) && names_series(snapshot, group.seasons[k], group.root) by {
        lemma_filtered_passes(found, season_test(snapshot, root), k);
    }
    assert forall|k: int| 0 <= k < group.episodes.len() implies found.contains(
        #[trigger] group.episodes[k],
    ) && lies_below(snapshot, group.episodes[k], group.root) && descendants(
        snapshot,
        group.root,
    ).contains(group.episodes[k]) by {
        lemma_filtered_passes(found, below_test(snapshot, root), k);
        let leaf = group.episodes[k];
        let every = positions(snapshot.len());
        assert(every[leaf as int] == leaf);
        every.lemma_filter_contains(below_test(snapshot, root), leaf as int);
    }
}

/// A movie, an episode or a special is announced alone, and a season covers
/// no seasons.
pub proof fn lemma_single_items_stand_alone(snapshot: Seq<CatalogItem>, found: Seq<usize>, g: int)
    requires
        0 <= g < grouping(snapshot, found).len(),
    ensures
        ({
            let group = grouping(snapshot, found)[g];
            &&& !has_kind(snapshot, group.root, ItemKind::Series) ==> group.seasons.len() == 0
            &&& !has_kind(snapshot, group.root, ItemKind::Series) && !has_kind(
                snapshot,
                group.root,
                ItemKind::Season,
            ) ==> group.episodes.len() == 0
        }),
{
    let group = grouping(snapshot, found)[g];
    let root = roots(snapshot, found)[g];
    assert(group == group_of(snapshot, found, root));
    if group.seasons.len() > 0 {
        lemma_filtered_passes(found, season_test(snapshot, root), 0);
    }
    if group.episodes.len() > 0 {
        lemma_filtered_passes(found, below_test(snapshot, root), 0);
    }
}

/// The candidate series at `found[x]` has its group.
proof fn lemma_series_has_group(snapshot: Seq<CatalogItem>, found: Seq<usize>, x: int)
    requires
        !unresolved(snapshot, found),
        0 <= x < found.len(),
        has_kind(snapshot, found[x], ItemKind::Series) || has_kind(
            snapshot,
            found[x],
            ItemKind::Movie,
        ),
    ensures
        exists|g: int|
            0 <= g < grouping(snapshot, found).len() && #[trigger] grouping(snapshot, found)[g]
                == group_of(snapshot, found, found[x]),
{
    let alone = found.filter(orphan_test(snapshot, found));
    let seasons = found.filter(lone_season_test(snapshot, found));
    let chosen = found.filter(top_test(snapshot));
    found.lemma_filter_contains(top_test(snapshot), x);
    let k = choose|k: int| 0 <= k < chosen.len() && chosen[k] == found[x];
    assert(roots(snapshot, found)[alone.len() + seasons.len() + k] == found[x]);
    lemma_root_has_group(snapshot, found, found[x]);
}

/// The candidate season at `found[s]` has its group, or the group of its
/// series covers it.
proof fn lemma_season_is_grouped(snapshot: Seq<CatalogItem>, found: Seq<usize>, s: int)
    requires
        !unresolved(snapshot, found),
        0 <= s < found.len(),
        has_kind(snapshot, found[s], ItemKind::Season),
    ensures
        is_grouped(snapshot, found, found[s]),
        !series_listed(snapshot, found, found[s]) ==> exists|g: int|
            0 <= g < grouping(snapshot, found).len() && #[trigger] grouping(snapshot, found)[g]
                == group_of(snapshot, found, found[s]),
{
    let alone = found.filter(orphan_test(snapshot, found));
    let seasons = found.filter(lone_season_test(snapshot, found));
    if series_listed(snapshot, found, found[s]) {
        let x = choose|x: int| 0 <= x < found.len() && names_series(snapshot, found[s], found[x]);
        lemma_series_has_group(snapshot, found, x);
        found.lemma_filter_contains(season_test(snapshot, found[x]), s);
    } else {
        found.lemma_filter_contains(lone_season_test(snapshot, found), s);
        let k = choose|k: int| 0 <= k < seasons.len() && seasons[k] == found[s];
        assert(roots(snapshot, found)[alone.len() + k] == found[s]);
        lemma_root_has_group(snapshot, found, found[s]);
    }
}

/// A pass that is not deferred drops no candidate: each belongs to a group.
pub proof fn lemma_every_candidate_is_grouped(
    snapshot: Seq<CatalogItem>,
    found: Seq<usize>,
    j: int,
)
    requires
        !unresolved(snapshot, found),
        0 <= j < found.len(),
        found[j] < snapshot.len(),
    ensures
        is_grouped(snapshot, found, found[j]),
{
    let p = found[j];
    let alone = found.filter(orphan_test(snapshot, found));
    let kind = snapshot[p as int].kind;
    if kind == ItemKind::Movie || kind == ItemKind::Series {
        lemma_series_has_group(snapshot, found, j);
    } else if kind == ItemKind::Season {
        lemma_season_is_grouped(snapshot, found, j);
    } else {
        assert(is_leaf_at(snapshot, p));
        if is_covered(snapshot, found, p) {
            let r = choose|r: int| 0 <= r < found.len() && lies_below(snapshot, p, found[r]);
            if has_kind(snapshot, found[r], ItemKind::Series) {
                lemma_series_has_group(snapshot, found, r);
                found.lemma_filter_contains(below_test(snapshot, found[r]), j);
            } else {
                assert(names_season(snapshot, p, found[r]));
                if series_listed(snapshot, found, found[r]) {
                    let x = choose|x: int|
                        0 <= x < found.len() && names_series(snapshot, found[r], found[x]);
                    assert(lies_below(snapshot, p, found[x]));
                    lemma_series_has_group(snapshot, found, x);
                    found.lemma_filter_contains(below_test(snapshot, found[x]), j);
                } else {
                    lemma_season_is_grouped(snapshot, found, r);
                    found.lemma_filter_contains(below_test(snapshot, found[r]), j);
                }
            }
        } else {
            found.lemma_filter_contains(orphan_test(snapshot, found), j);
            let k = choose|k: int| 0 <= k < alone.len() && alone[k] == p;
            assert(roots(snapshot, found)[k] == p);
            lemma_root_has_group(snapshot, found, p);
        }
    }
}

/// A list without repetitions stays without repetitions when it is sifted.
proof fn lemma_filter_keeps_distinct(list: Seq<usize>, test: spec_fn(usize) -> bool)
    requires
        list.no_duplicates(),
    ensures
        list.filter(test).no_duplicates(),
    decreases list.len(),
{
    reveal(Seq::filter);
    if list.len() > 0 {
        let shorter = list.drop_last();
        let inner = shorter.filter(test);
        lemma_filter_keeps_distinct(shorter, test);
        if test(list.last()) {
            let sifted = list.filter(test);
            assert forall|i: int, j: int| 0 <= i < j < sifted.len() implies sifted[i]
                != sifted[j] by {
                if j == inner.len() {
                    assert(inner.contains(inner[i]));
                    shorter.lemma_filter_contains_rev(test, inner[i]);
                    let m = choose|m: int| 0 <= m < shorter.len() && shorter[m] == inner[i];
                    assert(list[m] == inner[i]);
                    assert(list[list.len() - 1] == sifted[j]);
                }
            }
        }
    }
}

/// What kind of root stands at the head of group `g`: a candidate inside
/// the listing; if an episode or special, one that no candidate covers; if a
/// season, one whose series is no candidate.
proof fn lemma_root_class(snapshot: Seq<CatalogItem>, found: Seq<usize>, g: int)
    requires
        0 <= g < roots(snapshot, found).len(),
    ensures
        found.contains(roots(snapshot, found)[g]),
        roots(snapshot, found)[g] < snapshot.len(),
        is_leaf_at(snapshot, roots(snapshot, found)[g]) ==> !is_covered(
            snapshot,
            found,
            roots(snapshot, found)[g],
        ),
        has_kind(snapshot, roots(snapshot, found)[g], ItemKind::Season) ==> !series_listed(
            snapshot,
            found,
            roots(snapshot, found)[g],
        ),
{
    let alone = found.filter(orphan_test(snapshot, found));
    let seasons = found.filter(lone_season_test(snapshot, found));
    if g < alone.len() {
        lemma_filtered_passes(found, orphan_test(snapshot, found), g);
    } else if g < alone.len() + seasons.len() {
        lemma_filtered_passes(found, lone_season_test(snapshot, found), g - alone.len());
    } else {
        lemma_filtered_passes(found, top_test(snapshot), g - alone.len() - seasons.len());
    }
}

/// Among candidates that do not repeat, no root stands at the head of two
/// groups.
proof fn lemma_roots_are_distinct(snapshot: Seq<CatalogItem>, found: Seq<usize>)
    requires
        found.no_duplicates(),
    ensures
        roots(snapshot, found).no_duplicates(),
{
    let alone = found.filter(orphan_test(snapshot, found));
    let seasons = found.filter(lone_season_test(snapshot, found));
    let chosen = found.filter(top_test(snapshot));
    lemma_filter_keeps_distinct(found, orphan_test(snapshot, found));
    lemma_filter_keeps_distinct(found, lone_season_test(snapshot, found));
    lemma_filter_keeps_distinct(found, top_test(snapshot));
    assert forall|i: int, j: int| 0 <= i < alone.len() && 0 <= j < seasons.len() implies alone[i]
        != seasons[j] by {
        lemma_filtered_passes(found, orphan_test(snapshot, found), i);
        lemma_filtered_passes(found, lone_season_test(snapshot, found), j);
    }
    vstd::seq_lib::lemma_no_dup_in_concat(alone, seasons);
    assert forall|i: int, j: int|
        0 <= i < (alone + seasons).len() && 0 <= j < chosen.len() implies (alone + seasons)[i]
        != chosen[j] by {
        lemma_filtered_passes(found, top_test(snapshot), j);
        if i < alone.len() {
            lemma_filtered_passes(found, orphan_test(snapshot, found), i);
        } else {
            lemma_filtered_passes(found, lone_season_test(snapshot, found), i - alone.len());
        }
    }
    vstd::seq_lib::lemma_no_dup_in_concat(alone + seasons, chosen);
}

/// How a member of group `g` stands to the root of the group: it is the
/// root, or a season of the root, or an episode or special below the root.
proof fn lemma_member_relation(snapshot: Seq<CatalogItem>, found: Seq<usize>, g: int, p: usize)
    requires
        0 <= g < grouping(snapshot, found).len(),
        is_member(grouping(snapshot, found)[g], p),
    ensures
        p == roots(snapshot, found)[g] || names_series(snapshot, p, roots(snapshot, found)[g])
            || lies_below(snapshot, p, roots(snapshot, found)[g]),
{
    let root = roots(snapshot, found)[g];
    let group = grouping(snapshot, found)[g];
    assert(group == group_of(snapshot, found, root));
    if group.seasons.contains(p) {
        let k = choose|k: int| 0 <= k < group.seasons.len() && group.seasons[k] == p;
        lemma_filtered_passes(found, season_test(snapshot, root), k);
    } else if group.episodes.contains(p) {
        let k = choose|k: int| 0 <= k < group.episodes.len() && group.episodes[k] == p;
        lemma_filtered_passes(found, below_test(snapshot, root), k);
    }
}

/// Where no two items of the listing share an identifier and no candidate
/// is named twice, no candidate belongs to two groups of a pass: what a
/// season or series covers is announced with it, and not again on its own or
/// with another.
pub proof fn lemma_no_candidate_is_grouped_twice(
    snapshot: Seq<CatalogItem>,
    found: Seq<usize>,
    first: int,
    second: int,
    p: usize,
)
    requires
        distinct_ids(snapshot),
        found.no_duplicates(),
        0 <= first < grouping(snapshot, found).len(),
        0 <= second < grouping(snapshot, found).len(),
        is_member(grouping(snapshot, found)[first], p),
        is_member(grouping(snapshot, found)[second], p),
    ensures
        first == second,
{
    let all = roots(snapshot, found);
    let r1 = all[first];
    let r2 = all[second];
    lemma_roots_are_distinct(snapshot, found);
    lemma_root_class(snapshot, found, first);
    lemma_root_class(snapshot, found, second);
    lemma_member_relation(snapshot, found, first, p);
    lemma_member_relation(snapshot, found, second, p);
    let j1 = choose|j: int| 0 <= j < found.len() && found[j] == r1;
    let j2 = choose|j: int| 0 <= j < found.len() && found[j] == r2;
    assert(lies_below(snapshot, p, r1) ==> is_covered(snapshot, found, p)) by {
        assert(found[j1] == r1);
    }
    assert(lies_below(snapshot, p, r2) ==> is_covered(snapshot, found, p)) by {
        assert(found[j2] == r2);
    }
    assert(names_series(snapshot, p, r1) ==> series_listed(snapshot, found, p)) by {
        assert(found[j1] == r1);
    }
    assert(names_series(snapshot, p, r2) ==> series_listed(snapshot, found, p)) by {
        assert(found[j2] == r2);
    }
    if r1 != r2 && p != r1 && p != r2 {
        if names_series(snapshot, p, r1) {
            assert(names_series(snapshot, p, r2));
        } else {
            assert(lies_below(snapshot, p, r1) && lies_below(snapshot, p, r2));
            lemma_one_root_above(snapshot, found, p, r1, r2, j1, j2);
        }
    }
}

/// An episode or special lies below one root only.
proof fn lemma_one_root_above(
    snapshot: Seq<CatalogItem>,
    found: Seq<usize>,
    p: usize,
    r1: usize,
    r2: usize,
    j1: int,
    j2: int,
)
    requires
        distinct_ids(snapshot),
        0 <= j1 < found.len() && found[j1] == r1,
        0 <= j2 < found.len() && found[j2] == r2,
        lies_below(snapshot, p, r1),
        lies_below(snapshot, p, r2),
        has_kind(snapshot, r1, ItemKind::Season) ==> !series_listed(snapshot, found, r1),
        has_kind(snapshot, r2, ItemKind::Season) ==> !series_listed(snapshot, found, r2),
    ensures
        r1 == r2,
{
    if names_season(snapshot, p, r1) {
        if !names_season(snapshot, p, r2) {
            let s = choose|s: usize|
                #[trigger] names_series(snapshot, s, r2) && names_season(snapshot, p, s);
            assert(s == r1);
            assert(names_series(snapshot, r1, found[j2]));
        }
    } else {
        let s1 = choose|s: usize|
            #[trigger] names_series(snapshot, s, r1) && names_season(snapshot, p, s);
        if names_season(snapshot, p, r2) {
            assert(s1 == r2);
            assert(names_series(snapshot, r2, found[j1]));
        } else {
            let s2 = choose|s: usize|
                #[trigger] names_series(snapshot, s, r2) && names_season(snapshot, p, s);
            assert(s1 == s2);
        }
    }
}

} // verus!
