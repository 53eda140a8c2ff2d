//! The pass over the catalog of one subscriber: what it plans, and how it
//! moves from fetching to announcing and recording.

use crate::announce::{
    announce, announced, commit_ids, group_ids, Announcement, AnnouncementView,
};
use crate::catalog::{positions, CatalogItem};
use crate::hierarchy::{
    distinct_ids, group_views, grouping, is_member, lemma_every_candidate_is_grouped,
    lemma_groups_respect_parents, lemma_no_candidate_is_grouped_twice, resolve, unresolved,
    valid_group, GroupView,
};
use crate::reconcile::{
    candidates, lemma_candidates_are_the_unseen_items, listed_ids, reconcile, unseen_at,
    Reconciliation,
};
use crate::seen::SeenSet;
use crate::subscriber::Instance;
use crate::text::texts;
use vstd::prelude::*;

verus! {

/// Seconds to wait after a listing could not be fetched, before the next
/// subscriber is asked for.
pub const FETCH_COOLDOWN_SECS: u64 = 5;

/// Seconds between the end of one sweep over all subscribers and the start
/// of the next.
pub const SWEEP_INTERVAL_SECS: u64 = 300;

/// One announcement of a pass and what is recorded once it was delivered.
#[derive(Clone, Debug, PartialEq, Eq)]
pub struct Planned {
    /// The position in the listing of the item that is announced.
    pub root: usize,
    pub announcement: Announcement,
    /// The identifiers to record after the delivery.
    pub ids: Vec<String>,
}

/// The mathematical content of a [`Planned`] announcement.
pub struct PlannedView {
    pub root: usize,
    pub announcement: AnnouncementView,
    pub ids: Seq<Seq<char>>,
}

impl View for Planned {
    type V = PlannedView;

    open spec fn view(&self) -> PlannedView {
        PlannedView { root: self.root, announcement: self.announcement@, ids: texts(self.ids@) }
    }
}

/// The content of each announcement of a list.
pub open spec fn planned_views(list: Seq<Planned>) -> Seq<PlannedView> {
    list.map_values(|planned: Planned| planned@)
}

/// What a pass does for one subscriber.
#[derive(Clone, Debug, PartialEq, Eq)]
pub enum PassPlan {
    /// The subscriber is new: nothing is announced, the identifiers of the
    /// whole listing are recorded.
    Bootstrap(Vec<String>),
    /// The announcements of the pass, in the order in which they are made.
    Announce(Vec<Planned>),
}

/// What is planned for a group of the subscriber `to`.
pub open spec fn planned_for(
    to: Instance,
    snapshot: Seq<CatalogItem>,
    group: GroupView,
) -> PlannedView {
    PlannedView {
        root: group.root,
        announcement: announced(to, snapshot, group.root),
        ids: group_ids(snapshot, group),
    }
}

/// The announcements of a pass over `snapshot` for the subscriber `to`, to
/// whom the items named in `seen` were announced before.
pub open spec fn planned(
    to: Instance,
    snapshot: Seq<CatalogItem>,
    seen: Set<Seq<char>>,
) -> Seq<PlannedView> {
    grouping(snapshot, candidates(snapshot, seen)).map_values(
        |group: GroupView| planned_for(to, snapshot, group),
    )
}

/// Plans the pass over `snapshot` for the subscriber `to`.
///
/// A subscriber with an empty record is bootstrapped. For any other the
/// unannounced items are grouped, and each group gets its announcement and
/// the identifiers to record after it.
pub fn plan_pass(to: &Instance, snapshot: &Vec<CatalogItem>, seen: &SeenSet) -> (plan: PassPlan)
    ensures
        match plan {
            PassPlan::Bootstrap(ids) => seen@ == Set::<Seq<char>>::empty() && texts(ids@)
                == listed_ids(snapshot@),
            PassPlan::Announce(list) => seen@ != Set::<Seq<char>>::empty() && planned_views(list@)
                == planned(*to, snapshot@, seen@),
        },
{
    match reconcile(snapshot, seen) {
        Reconciliation::Bootstrap(ids) => PassPlan::Bootstrap(ids),
        Reconciliation::Candidates(found) => {
            let groups = resolve(snapshot, &found);
            let ghost all = grouping(snapshot@, found@);
            let ghost of = |group: GroupView| planned_for(*to, snapshot@, group);
            let mut list: Vec<Planned> = Vec::new();
            let mut i: usize = 0;
            assert(planned_views(list@) =~= all.take(0).map_values(of));
            while i < groups.len()
                invariant
                    i <= groups.len(),
                    all == grouping(snapshot@, found@),
                    forall|g: int|
                        0 <= g < groups@.len() ==> valid_group(snapshot@, (#[trigger] groups@[g])@),
                    group_views(groups@) == all,
                    of == |group: GroupView| planned_for(*to, snapshot@, group),
                    planned_views(list@) == all.take(i as int).map_values(of),
                decreases groups.len() - i,
            {
                let group = &groups[i];
                assert(group_views(groups@)[i as int] == group@);
                let ghost before = list@;
                let item = Planned {
                    root: group.root,
                    announcement: announce(to, snapshot, group.root),
                    ids: commit_ids(snapshot, group),
                };
                assert(item@ == of(group@));
                list.push(item);
                proof {
                    assert(planned_views(list@) =~= planned_views(before).push(of(group@)));
                    assert(all.take(i + 1).map_values(of) =~= all.take(i as int).map_values(
                        of,
                    ).push(of(all[i as int])));
                }
                i += 1;
            }
            assert(all.take(all.len() as int) =~= all);
            PassPlan::Announce(list)
        },
    }
}

/// Where the pass for one subscriber stands.
#[derive(Clone, Copy, Debug, PartialEq, Eq, Structural)]
pub enum PassState {
    /// Nothing is under way: before the pass, and after it.
    Idle,
    /// The listing of the catalog was asked for.
    Fetching,
    /// The listing could not be had; the pass waits before it ends.
    CoolingDown,
    /// The identifiers of the whole listing are being recorded.
    Bootstrapping,
    /// An announcement is being delivered.
    Dispatching,
    /// The identifiers of a delivered announcement are being recorded.
    Committing,
}

/// Why a listing could not be had.
#[derive(Clone, Copy, Debug, PartialEq, Eq)]
pub enum FetchError {
    /// The catalog could not be reached, or did not answer in time.
    Transport,
    /// The catalog answered with a status other than success.
    Status,
    /// The answer was no listing.
    Payload,
}

/// What the world reports to a pass.
#[derive(Clone, Debug)]
pub enum PassEvent {
    /// The turn of the subscriber has come.
    Begin,
    /// The listing was fetched, and the record of the subscriber read.
    Fetched { snapshot: Vec<CatalogItem>, seen: SeenSet },
    /// The listing could not be had.
    FetchFailed(FetchError),
    /// The wait after a failed fetch is over.
    CooledDown,
    /// The announcement was delivered.
    Posted,
    /// The announcement could not be delivered.
    PostFailed,
    /// The identifiers were recorded.
    Recorded,
    /// The identifiers could not be recorded.
    RecordFailed,
}

/// What a pass asks the world to do next.
#[derive(Clone, Debug, PartialEq, Eq)]
pub enum PassAction {
    /// Fetch the listing at this address and read the record of the subscriber.
    Fetch(String),
    /// Wait for this many seconds.
    CoolDown(u64),
    /// Record these identifiers as announced.
    Record(Vec<String>),
    /// Deliver this announcement.
    Post(Announcement),
    /// The pass is over; go on with the next subscriber.
    Finish,
    /// The event does not belong to the state of the pass; nothing changed.
    Ignore,
}

/// The mathematical content of a [`PassAction`].
pub enum ActionView {
    Fetch(Seq<char>),
    CoolDown(u64),
    Record(Seq<Seq<char>>),
    Post(AnnouncementView),
    Finish,
    Ignore,
}

impl View for PassAction {
    type V = ActionView;

    open spec fn view(&self) -> ActionView {
        match self {
            PassAction::Fetch(url) => ActionView::Fetch(url@),
            PassAction::CoolDown(seconds) => ActionView::CoolDown(*seconds),
            PassAction::Record(ids) => ActionView::Record(texts(ids@)),
            PassAction::Post(message) => ActionView::Post(message@),
            PassAction::Finish => ActionView::Finish,
            PassAction::Ignore => ActionView::Ignore,
        }
    }
}

/// The pass over the catalog of one subscriber.
#[derive(Clone, Debug)]
pub struct Pass {
    pub connection: Instance,
    pub state: PassState,
    /// The announcements that are still to be made.
    pub queue: Vec<Planned>,
    /// The identifiers to record if the announcement under way is delivered.
    pub pending: Vec<String>,
}

/// The mathematical content of a [`Pass`].
pub struct PassView {
    pub connection: Instance,
    pub state: PassState,
    pub queue: Seq<PlannedView>,
    pub pending: Seq<Seq<char>>,
}

impl View for Pass {
    type V = PassView;

    open spec fn view(&self) -> PassView {
        PassView {
            connection: self.connection,
            state: self.state,
            queue: planned_views(self.queue@),
            pending: texts(self.pending@),
        }
    }
}

/// A pass in the given state with nothing queued and nothing pending.
pub open spec fn at_rest(connection: Instance, state: PassState) -> PassView {
    PassView { connection, state, queue: Seq::empty(), pending: Seq::empty() }
}

/// The pass turns to the next announcement of `queue`, or ends where none is
/// left.
pub open spec fn advanced(connection: Instance, queue: Seq<PlannedView>) -> (PassView, ActionView) {
    if queue.len() == 0 {
        (at_rest(connection, PassState::Idle), ActionView::Finish)
    } else {
        (
            PassView {
                connection,
                state: PassState::Dispatching,
                queue: queue.drop_first(),
                pending: queue[0].ids,
            },
            ActionView::Post(queue[0].announcement),
        )
    }
}

/// The state that follows `pass` on `event`, and what the world is asked to
/// do.
///
/// A pass begins only for a subscriber that is not paused. A listing that
/// cannot be had costs a wait and ends the pass. A new subscriber has the
/// whole listing recorded and nothing announced. For any other the
/// announcements are made one after another; the identifiers of one are
/// recorded only after it was delivered, and a failed delivery or a failed
/// recording never stops the pass. An event that does not belong to the state
/// changes nothing.
pub open spec fn transition(pass: PassView, event: PassEvent) -> (PassView, ActionView) {
    let to = pass.connection;
    match (pass.state, event) {
        (PassState::Idle, PassEvent::Begin) => {
            if to.is_active() {
                (at_rest(to, PassState::Fetching), ActionView::Fetch(to.listing_address()))
            } else {
                (at_rest(to, PassState::Idle), ActionView::Finish)
            }
        },
        (PassState::Fetching, PassEvent::FetchFailed(_)) => (
            at_rest(to, PassState::CoolingDown),
            ActionView::CoolDown(FETCH_COOLDOWN_SECS),
        ),
        (PassState::Fetching, PassEvent::Fetched { snapshot, seen }) => {
            if seen@ == Set::<Seq<char>>::empty() {
                (at_rest(to, PassState::Bootstrapping), ActionView::Record(listed_ids(snapshot@)))
            } else {
                advanced(to, planned(to, snapshot@, seen@))
            }
        },
        (PassState::CoolingDown, PassEvent::CooledDown) => (
            at_rest(to, PassState::Idle),
            ActionView::Finish,
        ),
        (PassState::Bootstrapping, PassEvent::Recorded) => (
            at_rest(to, PassState::Idle),
            ActionView::Finish,
        ),
        (PassState::Bootstrapping, PassEvent::RecordFailed) => (
            at_rest(to, PassState::Idle),
            ActionView::Finish,
        ),
        (PassState::Dispatching, PassEvent::Posted) => (
            PassView {
                connection: to,
                state: PassState::Committing,
                queue: pass.queue,
                pending: Seq::empty(),
            },
            ActionView::Record(pass.pending),
        ),
        (PassState::Dispatching, PassEvent::PostFailed) => advanced(to, pass.queue),
        (PassState::Committing, PassEvent::Recorded) => advanced(to, pass.queue),
        (PassState::Committing, PassEvent::RecordFailed) => advanced(to, pass.queue),
        _ => (pass, ActionView::Ignore),
    }
}

impl Pass {
    /// The pass of a subscriber before it has begun.
    pub fn new(connection: Instance) -> (pass: Pass)
        ensures
            pass@ == at_rest(connection, PassState::Idle),
    {
        let pass = Pass {
            connection,
            state: PassState::Idle,
            queue: Vec::new(),
            pending: Vec::new(),
        };
        assert(pass@.queue =~= Seq::<PlannedView>::empty());
        assert(pass@.pending =~= Seq::<Seq<char>>::empty());
        pass
    }

    /// Empties queue and list of pending identifiers and enters `state`.
    fn rest(&mut self, state: PassState)
        ensures
            final(self)@ == at_rest(old(self).connection, state),
    {
        self.state = state;
        self.queue = Vec::new();
        self.pending = Vec::new();
        assert(self@.queue =~= Seq::<PlannedView>::empty());
        assert(self@.pending =~= Seq::<Seq<char>>::empty());
    }

    /// Turns to the next announcement of the queue.
    fn advance(&mut self) -> (action: PassAction)
        ensures
            (final(self)@, action@) == advanced(old(self).connection, old(self)@.queue),
    {
        if self.queue.len() == 0 {
            self.rest(PassState::Idle);
            PassAction::Finish
        } else {
            let ghost before = self.queue@;
            let next = self.queue.remove(0);
            assert(planned_views(self.queue@) =~= planned_views(before).drop_first());
            assert(planned_views(before)[0] == next@);
            self.state = PassState::Dispatching;
            self.pending = next.ids;
            PassAction::Post(next.announcement)
        }
    }

    /// Takes `event` in and says what is to be done next.
    pub fn step(&mut self, event: PassEvent) -> (action: PassAction)
        ensures
            (final(self)@, action@) == transition(old(self)@, event),
    {
        match (self.state, event) {
            (PassState::Idle, PassEvent::Begin) => {
                if self.connection.active() {
                    self.rest(PassState::Fetching);
                    PassAction::Fetch(self.connection.listing_url())
                } else {
                    self.rest(PassState::Idle);
                    PassAction::Finish
                }
            },
            (PassState::Fetching, PassEvent::FetchFailed(_)) => {
                self.rest(PassState::CoolingDown);
                PassAction::CoolDown(FETCH_COOLDOWN_SECS)
            },
            (PassState::Fetching, PassEvent::Fetched { snapshot, seen }) => {
                match plan_pass(&self.connection, &snapshot, &seen) {
                    PassPlan::Bootstrap(ids) => {
                        self.rest(PassState::Bootstrapping);
                        PassAction::Record(ids)
                    },
                    PassPlan::Announce(list) => {
                        self.queue = list;
                        self.advance()
                    },
                }
            },
            (PassState::CoolingDown, PassEvent::CooledDown) => {
                self.rest(PassState::Idle);
                PassAction::Finish
            },
            (PassState::Bootstrapping, PassEvent::Recorded) => {
                self.rest(PassState::Idle);
                PassAction::Finish
            },
            (PassState::Bootstrapping, PassEvent::RecordFailed) => {
                self.rest(PassState::Idle);
                PassAction::Finish
            },
            (PassState::Dispatching, PassEvent::Posted) => {
                let mut ids: Vec<String> = Vec::new();
                core::mem::swap(&mut self.pending, &mut ids);
                self.state = PassState::Committing;
                assert(self@.pending =~= Seq::<Seq<char>>::empty());
                PassAction::Record(ids)
            },
            (PassState::Dispatching, PassEvent::PostFailed) => self.advance(),
            (PassState::Committing, PassEvent::Recorded) => self.advance(),
            (PassState::Committing, PassEvent::RecordFailed) => self.advance(),
            _ => PassAction::Ignore,
        }
    }
}

/// How many events a pass can still take before it is idle, once the listing
/// was dealt with.
pub open spec fn remaining(pass: PassView) -> nat {
    match pass.state {
        PassState::Idle => 0,
        PassState::Fetching => 0,
        PassState::CoolingDown => 1,
        PassState::Bootstrapping => 1,
        PassState::Committing => 2 * pass.queue.len() + 1,
        PassState::Dispatching => 2 * pass.queue.len() + 2,
    }
}

/// The event reports that something went wrong.
pub open spec fn is_failure(event: PassEvent) -> bool {
    event is FetchFailed || event is PostFailed || event is RecordFailed
}

/// No failure stops a pass: in the state in which a failure can occur the
/// pass takes it in and goes on, to the wait after a failed fetch, to the
/// next announcement, or to its end.
pub proof fn lemma_failures_never_stop_a_pass(pass: PassView, event: PassEvent)
    requires
        is_failure(event),
    ensures
        pass.state == PassState::Fetching && event is FetchFailed ==> transition(pass, event)
            == (
            at_rest(pass.connection, PassState::CoolingDown),
            ActionView::CoolDown(FETCH_COOLDOWN_SECS),
        ),
        pass.state == PassState::Dispatching && event is PostFailed ==> transition(pass, event)
            == advanced(pass.connection, pass.queue),
        pass.state == PassState::Committing && event is RecordFailed ==> transition(pass, event)
            == advanced(pass.connection, pass.queue),
        pass.state == PassState::Bootstrapping && event is RecordFailed ==> transition(pass, event)
            == (at_rest(pass.connection, PassState::Idle), ActionView::Finish),
        !(transition(pass, event).1 is Record),
{
}

/// Every pass ends idle. An event that a pass takes in while it waits, records
/// or announces brings it strictly nearer to the idle state, whether it
/// reports success or failure; and the answer to a fetch leads to a state
/// from which that holds.
pub proof fn lemma_every_pass_ends_idle(pass: PassView, event: PassEvent)
    requires
        transition(pass, event).1 != ActionView::Ignore,
    ensures
        pass.state != PassState::Idle && pass.state != PassState::Fetching ==> remaining(
            transition(pass, event).0,
        ) < remaining(pass),
        pass.state == PassState::Fetching ==> transition(pass, event).0.state
            != PassState::Fetching,
        transition(pass, event).1 == ActionView::Finish <==> transition(pass, event).0.state
            == PassState::Idle,
        transition(pass, event).0.connection == pass.connection,
{
}

/// The event reports a listing that was fetched for a new subscriber.
pub open spec fn is_first_listing(event: PassEvent) -> bool {
    match event {
        PassEvent::Fetched { snapshot, seen } => seen@ == Set::<Seq<char>>::empty(),
        _ => false,
    }
}

/// Identifiers are recorded only for a new subscriber, or after the
/// announcement that they belong to was delivered; a delivery that failed
/// records nothing.
pub proof fn lemma_recorded_only_after_delivery(pass: PassView, event: PassEvent)
    ensures
        transition(pass, event).1 is Record ==> (pass.state == PassState::Dispatching
            && event is Posted && transition(pass, event).1 == ActionView::Record(pass.pending))
            || (pass.state == PassState::Fetching && is_first_listing(event)),
        event is PostFailed ==> !(transition(pass, event).1 is Record),
{
}

/// What is recorded after a delivery are the identifiers of the announcement
/// that was delivered: the pass that turns to the first announcement of a
/// queue asks for its delivery, and asks on success for its identifiers to be
/// recorded before it turns to the next.
pub proof fn lemma_delivered_announcement_is_recorded(to: Instance, queue: Seq<PlannedView>)
    requires
        queue.len() > 0,
    ensures
        ({
            let (next, action) = advanced(to, queue);
            let (after, record) = transition(next, PassEvent::Posted);
            &&& action == ActionView::Post(queue[0].announcement)
            &&& record == ActionView::Record(queue[0].ids)
            &&& after.state == PassState::Committing
            &&& transition(after, PassEvent::Recorded) == advanced(to, queue.drop_first())
        }),
{
}

/// To a new subscriber nothing is announced: the pass asks for the
/// identifiers of the whole listing to be recorded and then ends.
pub proof fn lemma_bootstrap_announces_nothing(
    pass: PassView,
    snapshot: Vec<CatalogItem>,
    seen: SeenSet,
    later: PassEvent,
)
    requires
        pass.state == PassState::Fetching,
        seen@ == Set::<Seq<char>>::empty(),
    ensures
        ({
            let (next, action) = transition(pass, PassEvent::Fetched { snapshot, seen });
            &&& action == ActionView::Record(listed_ids(snapshot@))
            &&& next.state == PassState::Bootstrapping
            &&& next.queue.len() == 0
            &&& !(transition(next, later).1 is Post)
            &&& transition(next, PassEvent::Recorded).0.state == PassState::Idle
        }),
{
}

/// The announcements of a pass are those of its groups, one for each and in
/// their order, and a pass in which an episode lacks its season makes none.
pub proof fn lemma_plan_follows_the_groups(
    to: Instance,
    snapshot: Seq<CatalogItem>,
    seen: Set<Seq<char>>,
)
    ensures
        planned(to, snapshot, seen).len() == grouping(snapshot, candidates(snapshot, seen)).len(),
        forall|g: int|
            0 <= g < planned(to, snapshot, seen).len() ==> (#[trigger] planned(
                to,
                snapshot,
                seen,
            )[g]).root == grouping(snapshot, candidates(snapshot, seen))[g].root,
        unresolved(snapshot, candidates(snapshot, seen)) ==> planned(
            to,
            snapshot,
            seen,
        ).len() == 0,
{
}

/// The identifiers that the announcements of a plan ask to record.
pub open spec fn plan_ids(plan: Seq<PlannedView>) -> Set<Seq<char>> {
    Set::new(
        |id: Seq<char>|
            exists|g: int, k: int|
                0 <= g < plan.len() && 0 <= k < plan[g].ids.len() && #[trigger] plan[g].ids[k]
                    == id,
    )
}

/// No item is announced twice. Once the identifiers of a delivered
/// announcement are in the record, whatever else the record holds, neither
/// the item that was announced nor any season or episode that the
/// announcement covered is a candidate again.
pub proof fn lemma_recorded_group_is_never_a_candidate_again(
    to: Instance,
    snapshot: Seq<CatalogItem>,
    seen: Set<Seq<char>>,
    g: int,
    later: Set<Seq<char>>,
)
    requires
        snapshot.len() <= usize::MAX,
        0 <= g < planned(to, snapshot, seen).len(),
        forall|k: int|
            0 <= k < planned(to, snapshot, seen)[g].ids.len() ==> later.contains(
                #[trigger] planned(to, snapshot, seen)[g].ids[k],
            ),
    ensures
        ({
            let group = grouping(snapshot, candidates(snapshot, seen))[g];
            &&& !candidates(snapshot, later).contains(group.root)
            &&& forall|k: int|
                0 <= k < group.seasons.len() ==> !candidates(snapshot, later).contains(
                    #[trigger] group.seasons[k],
                )
            &&& forall|k: int|
                0 <= k < group.episodes.len() ==> !candidates(snapshot, later).contains(
                    #[trigger] group.episodes[k],
                )
        }),
{
    let found = candidates(snapshot, seen);
    let group = grouping(snapshot, found)[g];
    let ids = planned(to, snapshot, seen)[g].ids;
    let again = candidates(snapshot, later);
    lemma_groups_respect_parents(snapshot, found, g);
    lemma_candidates_are_the_unseen_items(snapshot, later);
    assert(ids == group_ids(snapshot, group));
    assert(ids[0] == snapshot[group.root as int].id@);
    if again.contains(group.root) {
        let j = choose|j: int| 0 <= j < again.len() && again[j] == group.root;
        assert(!later.contains(snapshot[again[j] as int].id@));
    }
    assert forall|k: int| 0 <= k < group.seasons.len() implies !again.contains(
        #[trigger] group.seasons[k],
    ) by {
        assert(ids[1 + k] == snapshot[group.seasons[k] as int].id@);
        if again.contains(group.seasons[k]) {
            let j = choose|j: int| 0 <= j < again.len() && again[j] == group.seasons[k];
            assert(!later.contains(snapshot[again[j] as int].id@));
        }
    }
    assert forall|k: int| 0 <= k < group.episodes.len() implies !again.contains(
        #[trigger] group.episodes[k],
    ) by {
        assert(ids[1 + group.seasons.len() + k] == snapshot[group.episodes[k] as int].id@);
        if again.contains(group.episodes[k]) {
            let j = choose|j: int| 0 <= j < again.len() && again[j] == group.episodes[k];
            assert(!later.contains(snapshot[again[j] as int].id@));
        }
    }
}

/// A pass of which every announcement was delivered and recorded leaves
/// nothing to announce: against the same listing the next pass has no
/// candidate.
pub proof fn lemma_delivered_pass_leaves_no_candidate(
    to: Instance,
    snapshot: Seq<CatalogItem>,
    seen: Set<Seq<char>>,
)
    requires
        snapshot.len() <= usize::MAX,
        !unresolved(snapshot, candidates(snapshot, seen)),
    ensures
        candidates(snapshot, seen.union(plan_ids(planned(to, snapshot, seen)))).len() == 0,
{
    let found = candidates(snapshot, seen);
    let plan = planned(to, snapshot, seen);
    let later = seen.union(plan_ids(plan));
    let all = positions(snapshot.len());
    let test = unseen_at(snapshot, later);
    lemma_candidates_are_the_unseen_items(snapshot, seen);
    assert forall|i: int| 0 <= i < all.len() implies !test(#[trigger] all[i]) by {
        let p = all[i];
        if !seen.contains(snapshot[i].id@) {
            assert(found.contains(i as usize));
            let j = choose|j: int| 0 <= j < found.len() && found[j] == p;
            lemma_every_candidate_is_grouped(snapshot, found, j);
            let g = choose|g: int|
                0 <= g < grouping(snapshot, found).len() && is_member(
                    #[trigger] grouping(snapshot, found)[g],
                    p,
                );
            let group = grouping(snapshot, found)[g];
            let ids = plan[g].ids;
            assert(ids == group_ids(snapshot, group));
            if group.root == p {
                assert(ids[0] == snapshot[i].id@);
            } else if group.seasons.contains(p) {
                let k = choose|k: int| 0 <= k < group.seasons.len() && group.seasons[k] == p;
                assert(ids[1 + k] == snapshot[i].id@);
            } else {
                let k = choose|k: int| 0 <= k < group.episodes.len() && group.episodes[k] == p;
                assert(ids[1 + group.seasons.len() + k] == snapshot[i].id@);
            }
            assert(plan_ids(plan).contains(snapshot[i].id@));
        }
    }
    all.lemma_all_neg_filter_empty(test);
}

/// In a pass that is not deferred, over a listing in which no two items
/// share an identifier, each candidate is covered by exactly one
/// announcement.
pub proof fn lemma_each_candidate_is_announced_once(
    snapshot: Seq<CatalogItem>,
    seen: Set<Seq<char>>,
    j: int,
)
    requires
        snapshot.len() <= usize::MAX,
        distinct_ids(snapshot),
        !unresolved(snapshot, candidates(snapshot, seen)),
        0 <= j < candidates(snapshot, seen).len(),
    ensures
        exists|g: int|
            0 <= g < grouping(snapshot, candidates(snapshot, seen)).len() && is_member(
                #[trigger] grouping(snapshot, candidates(snapshot, seen))[g],
                candidates(snapshot, seen)[j],
            ) && forall|other: int|
                0 <= other < grouping(snapshot, candidates(snapshot, seen)).len() && is_member(
                    #[trigger] grouping(snapshot, candidates(snapshot, seen))[other],
                    candidates(snapshot, seen)[j],
                ) ==> other == g,
{
    let found = candidates(snapshot, seen);
    let p = found[j];
    lemma_candidates_are_the_unseen_items(snapshot, seen);
    lemma_every_candidate_is_grouped(snapshot, found, j);
    let g = choose|g: int|
        0 <= g < grouping(snapshot, found).len() && is_member(
            #[trigger] grouping(snapshot, found)[g],
            p,
        );
    assert forall|other: int|
        0 <= other < grouping(snapshot, found).len() && is_member(
            #[trigger] grouping(snapshot, found)[other],
            p,
        ) implies other == g by {
        lemma_no_candidate_is_grouped_twice(snapshot, found, g, other, p);
    }
}

/// A pass depends on nothing but the subscriber, the listing and the set of
/// recorded identifiers: as long as nothing more is recorded, every pass over
/// the same listing plans the same announcements.
pub proof fn lemma_pass_repeats_until_something_is_recorded(
    to: Instance,
    snapshot: Seq<CatalogItem>,
    first: SeenSet,
    second: SeenSet,
)
    requires
        first@ == second@,
    ensures
        candidates(snapshot, first@) == candidates(snapshot, second@),
        planned(to, snapshot, first@) == planned(to, snapshot, second@),
{
}

} // verus!
