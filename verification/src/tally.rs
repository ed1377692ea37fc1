//! What a bucket counts: occurrences per action and per actor, as a
//! mathematical model, with the facts that hold of every run of events.

use vstd::prelude::*;

verus! {

/// Number of actions that are counted.
pub const ACTION_COUNT: usize = 9;

/// What a user asked the bot to do.
#[derive(Clone, Copy, Debug, PartialEq, Eq, Hash, Structural)]
pub enum StatisticAction {
    Breakdown,
    StartAbout,
    Help,
    Raw,
    Filter,
    Codepoint,
    Unique,
    BadCmd,
    Inline,
}

impl StatisticAction {
    /// Position of the action in the fixed column order.
    pub open spec fn ordinal(self) -> int {
        match self {
            StatisticAction::Breakdown => 0,
            StatisticAction::StartAbout => 1,
            StatisticAction::Help => 2,
            StatisticAction::Raw => 3,
            StatisticAction::Filter => 4,
            StatisticAction::Codepoint => 5,
            StatisticAction::Unique => 6,
            StatisticAction::BadCmd => 7,
            StatisticAction::Inline => 8,
        }
    }

    /// Position of the action in the fixed column order.
    pub fn index(self) -> (i: usize)
        ensures
            i == self.ordinal(),
            i < ACTION_COUNT,
    {
        match self {
            StatisticAction::Breakdown => 0,
            StatisticAction::StartAbout => 1,
            StatisticAction::Help => 2,
            StatisticAction::Raw => 3,
            StatisticAction::Filter => 4,
            StatisticAction::Codepoint => 5,
            StatisticAction::Unique => 6,
            StatisticAction::BadCmd => 7,
            StatisticAction::Inline => 8,
        }
    }
}

/// One use of the bot: who asked, and for what.
#[derive(Clone, Copy, Debug)]
pub struct Statistic {
    pub user_id: i64,
    pub action: StatisticAction,
}

/// The counts of one bucket.
pub struct Tally {
    /// Occurrences of each action, by ordinal.
    pub actions: Seq<nat>,
    /// Occurrences of each actor that occurred at all.
    pub actors: Map<i64, nat>,
}

/// Sum of the counts of a finite map.
pub open spec fn map_sum(m: Map<i64, nat>) -> nat
    decreases m.dom().len(),
    when m.dom().finite()
{
    if m.dom().len() == 0 {
        0
    } else {
        let k = m.dom().choose();
        m[k] + map_sum(m.remove(k))
    }
}

/// The actors that occur in a run of events.
pub open spec fn actor_ids(stats: Seq<Statistic>) -> Set<i64> {
    Set::new(|id: i64| exists|i: int| 0 <= i < stats.len() && (#[trigger] stats[i]).user_id == id)
}

impl Tally {
    /// The counts of a bucket without events.
    pub open spec fn empty() -> Tally {
        Tally { actions: Seq::new(ACTION_COUNT as nat, |i: int| 0nat), actors: Map::empty() }
    }

    /// How often an actor occurred.
    pub open spec fn count_of(self, id: i64) -> nat {
        if self.actors.contains_key(id) {
            self.actors[id]
        } else {
            0
        }
    }

    /// The counts after one more event: one more for its action, one more
    /// for its actor.
    pub open spec fn record(self, stat: Statistic) -> Tally {
        Tally {
            actions: self.actions.update(
                stat.action.ordinal(),
                self.actions[stat.action.ordinal()] + 1,
            ),
            actors: self.actors.insert(stat.user_id, self.count_of(stat.user_id) + 1),
        }
    }

    /// The counts after a run of events.
    pub open spec fn record_all(self, stats: Seq<Statistic>) -> Tally
        decreases stats.len(),
    {
        if stats.len() == 0 {
            self
        } else {
            self.record_all(stats.drop_last()).record(stats.last())
        }
    }

    /// Number of events, counted by action.
    pub open spec fn action_total(self) -> nat {
        self.actions[0] + self.actions[1] + self.actions[2] + self.actions[3] + self.actions[4]
            + self.actions[5] + self.actions[6] + self.actions[7] + self.actions[8]
    }

    /// Number of events, counted by actor.
    pub open spec fn actor_total(self) -> nat {
        map_sum(self.actors)
    }

    /// Number of distinct actors.
    pub open spec fn unique_actors(self) -> nat {
        self.actors.dom().len()
    }

    /// Whether the bucket has seen no event.
    pub open spec fn is_empty(self) -> bool {
        self.actors.dom().len() == 0
    }

    /// What holds of the counts of every bucket: there are nine action
    /// counts, finitely many actors, each of which occurred, and both ways
    /// of counting the events agree.
    pub open spec fn wf(self) -> bool {
        &&& self.actions.len() == ACTION_COUNT
        &&& self.actors.dom().finite()
        &&& forall|id: i64| self.actors.contains_key(id) ==> #[trigger] self.actors[id] >= 1
        &&& self.actor_total() == self.action_total()
    }
}

/// Taking one actor out of a map takes its count out of the sum.
pub proof fn lemma_map_sum_remove(m: Map<i64, nat>, id: i64)
    requires
        m.dom().finite(),
        m.contains_key(id),
    ensures
        map_sum(m) == m[id] + map_sum(m.remove(id)),
    decreases m.dom().len(),
{
    let k = m.dom().choose();
    if k != id {
        lemma_map_sum_remove(m.remove(k), id);
        lemma_map_sum_remove(m.remove(id), k);
        assert(m.remove(k).remove(id) =~= m.remove(id).remove(k));
    }
}

/// Setting the count of one actor changes the sum by the difference to the
/// count that the actor had.
pub proof fn lemma_map_sum_insert(m: Map<i64, nat>, id: i64, count: nat)
    requires
        m.dom().finite(),
    ensures
        map_sum(m.insert(id, count)) + (if m.contains_key(id) {
            m[id]
        } else {
            0
        }) == map_sum(m) + count,
{
    let after = m.insert(id, count);
    lemma_map_sum_remove(after, id);
    if m.contains_key(id) {
        lemma_map_sum_remove(m, id);
        assert(after.remove(id) =~= m.remove(id));
    } else {
        assert(after.remove(id) =~= m);
    }
}

/// No actor occurred more often than there were events.
pub proof fn lemma_count_within_total(tally: Tally, id: i64)
    requires
        tally.actors.dom().finite(),
    ensures
        tally.count_of(id) <= tally.actor_total(),
{
    if tally.actors.contains_key(id) {
        lemma_map_sum_remove(tally.actors, id);
    }
}

/// An empty bucket is well formed and counts nothing.
pub proof fn lemma_empty_tally()
    ensures
        Tally::empty().wf(),
        Tally::empty().is_empty(),
        Tally::empty().action_total() == 0,
        Tally::empty().actor_total() == 0,
        Tally::empty().unique_actors() == 0,
{
}

/// Every event adds one to exactly one action count and to exactly one
/// actor count, so both totals grow by one and stay equal.
pub proof fn lemma_record(tally: Tally, stat: Statistic)
    requires
        tally.wf(),
    ensures
        tally.record(stat).wf(),
        tally.record(stat).action_total() == tally.action_total() + 1,
        tally.record(stat).actor_total() == tally.actor_total() + 1,
        tally.record(stat).actors.dom() == tally.actors.dom().insert(stat.user_id),
        !tally.record(stat).is_empty(),
        tally.unique_actors() <= tally.record(stat).unique_actors() <= tally.unique_actors() + 1,
{
    lemma_map_sum_insert(tally.actors, stat.user_id, tally.count_of(stat.user_id) + 1);
    assert(tally.record(stat).actors.dom() =~= tally.actors.dom().insert(stat.user_id));
}

/// After `n` events in a fresh bucket, the events counted by actor are `n`,
/// and the nine action counts add up to `n` as well.
pub proof fn lemma_totals_count_events(stats: Seq<Statistic>)
    ensures
        Tally::empty().record_all(stats).wf(),
        Tally::empty().record_all(stats).actor_total() == stats.len(),
        Tally::empty().record_all(stats).action_total() == stats.len(),
        stats.len() > 0 ==> !Tally::empty().record_all(stats).is_empty(),
    decreases stats.len(),
{
    lemma_empty_tally();
    if stats.len() > 0 {
        lemma_totals_count_events(stats.drop_last());
        lemma_record(Tally::empty().record_all(stats.drop_last()), stats.last());
    }
}

/// After a run of events in a fresh bucket, the actors that are counted
/// are exactly the distinct actors of the run, and there are never more of
/// them than events.
pub proof fn lemma_unique_actors(stats: Seq<Statistic>)
    ensures
        Tally::empty().record_all(stats).actors.dom() == actor_ids(stats),
        Tally::empty().record_all(stats).unique_actors() == actor_ids(stats).len(),
        Tally::empty().record_all(stats).unique_actors() <= stats.len(),
    decreases stats.len(),
{
    lemma_empty_tally();
    lemma_totals_count_events(stats);
    if stats.len() == 0 {
        assert(actor_ids(stats) =~= Set::<i64>::empty());
    } else {
        let front = stats.drop_last();
        lemma_unique_actors(front);
        lemma_totals_count_events(front);
        lemma_record(Tally::empty().record_all(front), stats.last());
        assert forall|id: i64| actor_ids(stats).contains(id) <==> actor_ids(front).insert(
            stats.last().user_id,
        ).contains(id) by {
            if actor_ids(stats).contains(id) {
                let i = choose|i: int| 0 <= i < stats.len() && (#[trigger] stats[i]).user_id == id;
                if i < front.len() {
                    assert(front[i].user_id == id);
                }
            }
            if actor_ids(front).contains(id) {
                let i = choose|i: int| 0 <= i < front.len() && (#[trigger] front[i]).user_id == id;
                assert(stats[i].user_id == id);
            }
            if id == stats.last().user_id {
                assert(stats[stats.len() - 1].user_id == id);
            }
        }
        assert(actor_ids(stats) =~= actor_ids(front).insert(stats.last().user_id));
    }
}

} // verus!
