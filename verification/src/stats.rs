//! The usage statistics: one open bucket of counts, rolled over by the
//! first event of the next period or by a timer when traffic stops, and
//! written out once as a line of comma-separated numbers.

use crate::clock::{
    bucket_floor, lemma_bucket_floor, lemma_bucket_floor_monotonic, locate, rfc3339, rfc3339_text,
};
use crate::digits::{decimal, push_numeral, push_signed_decimal, signed_decimal};
use crate::tally::{
    actor_ids, lemma_count_within_total, lemma_empty_tally, lemma_record, lemma_totals_count_events,
    lemma_unique_actors, Statistic, StatisticAction, Tally, ACTION_COUNT,
};
use std::collections::HashMap;
use vstd::prelude::*;
use vstd::string::StringExecFns;

verus! {

broadcast use vstd::std_specs::hash::group_hash_axioms;

/// One hour in nanoseconds, the period of the statistics log.
pub const HOUR_NANOS: i64 = 3_600_000_000_000;

/// Why the aggregator could not take a step.
#[derive(Clone, Copy, Debug, PartialEq, Eq, Structural)]
pub enum StatError {
    /// The period is not positive.
    BadPeriod,
    /// The bucket of the instant would start before the earliest instant
    /// that can be told.
    TimeOutOfRange,
}

/// When the aggregator wants to be woken next.
#[derive(Clone, Copy, Debug, PartialEq, Eq, Structural)]
pub enum Timer {
    /// After this many nanoseconds, when the open bucket ends.
    After(u64),
    /// Not before the next event: there is nothing to write.
    Idle,
}

/// The aggregate of one finished bucket, as it is written out.
#[derive(Clone, Copy, Debug)]
pub struct StatLine {
    /// Start of the bucket, in nanoseconds since the epoch.
    pub bucket_start: i64,
    /// Number of distinct actors.
    pub unique_users: u64,
    /// Number of events.
    pub total_msgs: u64,
    /// Occurrences of each action, in column order.
    pub counts: [u64; 9],
}

/// What the caller has to do after a step.
#[derive(Clone, Copy, Debug)]
pub struct Step {
    /// The line to append to the log, if a bucket was finished.
    pub line: Option<StatLine>,
    /// The timer to arm in place of the current one.
    pub timer: Timer,
}

/// The state of the aggregator as contracts see it.
pub struct AggregatorView {
    /// Length of a bucket in nanoseconds.
    pub period: int,
    /// Start of the open bucket.
    pub bucket_start: int,
    /// Counts of the open bucket.
    pub tally: Tally,
}

/// The single consumer of usage events. It owns the open bucket.
pub struct Aggregator {
    period: i64,
    bucket_start: i64,
    action_counts: [u64; 9],
    actor_counts: HashMap<i64, u64>,
    total: u64,
}

/// The text of a run of numbers, each preceded by a comma and a space.
pub open spec fn fields_text(values: Seq<u64>) -> Seq<char>
    decreases values.len(),
{
    if values.len() == 0 {
        Seq::empty()
    } else {
        fields_text(values.drop_last()) + ", "@ + decimal(values.last() as nat)
    }
}

/// One more number appends a comma, a space and its decimal numeral.
pub proof fn lemma_fields_step(values: Seq<u64>, k: int)
    requires
        0 <= k < values.len(),
    ensures
        fields_text(values.take(k + 1)) == fields_text(values.take(k)) + ", "@ + decimal(
            values[k] as nat,
        ),
{
    assert(values.take(k + 1).drop_last() =~= values.take(k));
}

/// Appends a comma, a space and the decimal numeral of `value`.
fn push_field(text: &mut String, value: u64)
    ensures
        final(text)@ == old(text)@ + ", "@ + decimal(value as nat),
{
    text.append(", ");
    push_numeral(text, value, 10);
}

/// The first line of a log file.
pub open spec fn header_text() -> Seq<char> {
    "Hour, Unique Users, Total Msgs, Breakdown, StartAbout, Help, Raw, Filter, Codepoint, Unique, BadCmd, Inline"@
}

/// The first line of a log file: the names of the columns.
pub fn header() -> (text: &'static str)
    ensures
        text@ == header_text(),
{
    "Hour, Unique Users, Total Msgs, Breakdown, StartAbout, Help, Raw, Filter, Codepoint, Unique, BadCmd, Inline"
}

/// The path of the log of one calendar year.
pub open spec fn log_path_text(year: int) -> Seq<char> {
    "logs/stats_"@ + signed_decimal(year) + ".csv"@
}

/// The path of the log of one calendar year: a file of its own for each.
pub fn log_path(year: i32) -> (path: String)
    ensures
        path@ == log_path_text(year as int),
{
    let mut path = String::new();
    path.append("logs/stats_");
    push_signed_decimal(&mut path, year);
    path.append(".csv");
    assert(path@ =~= log_path_text(year as int));
    path
}

impl StatLine {
    /// Whether the line reports the bucket that started at `start` and
    /// counted `tally`.
    pub open spec fn is_line_of(self, start: int, tally: Tally) -> bool {
        &&& self.bucket_start == start
        &&& self.unique_users == tally.unique_actors()
        &&& self.total_msgs == tally.actor_total()
        &&& forall|i: int| 0 <= i < ACTION_COUNT ==> #[trigger] self.counts@[i] == tally.actions[i]
    }

    /// The numbers of the line in column order, after the bucket start.
    pub open spec fn fields(self) -> Seq<u64> {
        seq![self.unique_users, self.total_msgs] + self.counts@
    }

    /// The line as it stands in the log, without the line break.
    pub open spec fn text(self) -> Seq<char> {
        rfc3339_text(self.bucket_start) + fields_text(self.fields())
    }

    /// Sum of the nine action counts.
    pub open spec fn counts_sum(self) -> int {
        self.counts@[0] + self.counts@[1] + self.counts@[2] + self.counts@[3] + self.counts@[4]
            + self.counts@[5] + self.counts@[6] + self.counts@[7] + self.counts@[8]
    }

    /// Renders the line after the text of its bucket start: the unique
    /// actors, the events and the nine action counts, each after a comma
    /// and a space.
    pub fn render_after(&self, stamp: String) -> (text: String)
        ensures
            text@ == stamp@ + fields_text(self.fields()),
    {
        let mut text = stamp;
        let ghost fields = self.fields();
        assert(stamp@ + fields_text(fields.take(0)) =~= stamp@);
        push_field(&mut text, self.unique_users);
        proof {
            lemma_fields_step(fields, 0);
        }
        push_field(&mut text, self.total_msgs);
        proof {
            lemma_fields_step(fields, 1);
        }
        let mut i: usize = 0;
        while i < 9
            invariant
                i <= 9,
                fields == self.fields(),
                fields.len() == 11,
                text@ == stamp@ + fields_text(fields.take(2 + i)),
            decreases 9 - i,
        {
            push_field(&mut text, self.counts[i]);
            proof {
                lemma_fields_step(fields, 2 + i);
            }
            i += 1;
        }
        assert(fields.take(11) =~= fields);
        text
    }

    /// Renders the line as it stands in the log, without the line break:
    /// the bucket start as RFC 3339 text, then the unique actors, the
    /// events and the nine action counts, each after a comma and a space.
    pub fn render(&self) -> (text: String)
        ensures
            text@ == self.text(),
    {
        self.render_after(rfc3339(self.bucket_start))
    }
}

impl AggregatorView {
    /// The state with the same period and bucket start and no events.
    pub open spec fn cleared(self) -> AggregatorView {
        AggregatorView { period: self.period, bucket_start: self.bucket_start, tally: Tally::empty() }
    }

    /// Whether an event at `now` falls into another bucket than the open
    /// one.
    pub open spec fn rolls_over(self, now: int) -> bool {
        bucket_floor(now, self.period) != self.bucket_start
    }

    /// Whether the bucket of `now` starts at an instant that can be told.
    pub open spec fn in_reach(self, now: int) -> bool {
        bucket_floor(now, self.period) >= i64::MIN
    }

    /// Whether one more event at `now` can be counted: it opens a bucket of
    /// its own, or the open bucket holds fewer events than 64 bits count.
    pub open spec fn has_room(self, now: int) -> bool {
        self.rolls_over(now) || self.tally.action_total() < u64::MAX
    }

    /// The state after an event at `now`: the event is counted in the
    /// bucket of `now`, which is a fresh one if the open bucket is another.
    pub open spec fn after_event(self, stat: Statistic, now: int) -> AggregatorView {
        if self.rolls_over(now) {
            AggregatorView {
                period: self.period,
                bucket_start: bucket_floor(now, self.period),
                tally: Tally::empty().record(stat),
            }
        } else {
            AggregatorView {
                period: self.period,
                bucket_start: self.bucket_start,
                tally: self.tally.record(stat),
            }
        }
    }

    /// The bucket that the timer closes and writes, if it writes one: the
    /// open bucket, unless it is empty. Start and counts of the bucket.
    pub open spec fn timer_line(self) -> Option<(int, Tally)> {
        if self.tally.is_empty() {
            None
        } else {
            Some((self.bucket_start, self.tally))
        }
    }

    /// The bucket that an event at `now` closes and writes, if it writes
    /// one: the open bucket, if `now` lies in another and the open one is
    /// not empty.
    pub open spec fn event_line(self, now: int) -> Option<(int, Tally)> {
        if self.rolls_over(now) {
            self.timer_line()
        } else {
            None
        }
    }

    /// Whether `after` and `taken` are what an event at `now` makes of this
    /// state: the event is counted, the timer is set to the end of the
    /// bucket of `now`, and the line of the open bucket is handed out if the
    /// event closes it; or, where the bucket of `now` is out of reach, the
    /// event is refused and nothing changes.
    pub open spec fn took_event(
        self,
        stat: Statistic,
        now: int,
        after: AggregatorView,
        taken: Result<Step, StatError>,
    ) -> bool {
        match taken {
            Ok(step) => {
                &&& self.in_reach(now)
                &&& after == self.after_event(stat, now)
                &&& step.timer == Timer::After(
                    (self.period - (now - bucket_floor(now, self.period))) as u64,
                )
                &&& step.line is Some <==> self.event_line(now) is Some
                &&& step.line matches Some(line) ==> line.is_line_of(self.bucket_start, self.tally)
            },
            Err(error) => {
                &&& !self.in_reach(now)
                &&& error == StatError::TimeOutOfRange
                &&& after == self
            },
        }
    }

    /// The state after a run of events, each with its instant.
    pub open spec fn after_events(self, events: Seq<(Statistic, int)>) -> AggregatorView
        decreases events.len(),
    {
        if events.len() == 0 {
            self
        } else {
            self.after_events(events.drop_last()).after_event(events.last().0, events.last().1)
        }
    }
}

/// The events of a run without their instants.
pub open spec fn stats_of(events: Seq<(Statistic, int)>) -> Seq<Statistic> {
    events.map_values(|e: (Statistic, int)| e.0)
}

/// Events that all fall into the open bucket leave the bucket open and are
/// all counted in it.
pub proof fn lemma_events_in_one_bucket(state: AggregatorView, events: Seq<(Statistic, int)>)
    requires
        forall|i: int| 0 <= i < events.len() ==> !state.rolls_over((#[trigger] events[i]).1),
    ensures
        state.after_events(events).period == state.period,
        state.after_events(events).bucket_start == state.bucket_start,
        state.after_events(events).tally == state.tally.record_all(stats_of(events)),
    decreases events.len(),
{
    if events.len() > 0 {
        let front = events.drop_last();
        assert forall|i: int| 0 <= i < front.len() implies !state.rolls_over(
            (#[trigger] front[i]).1,
        ) by {
            assert(front[i] == events[i]);
        }
        lemma_events_in_one_bucket(state, front);
        assert(stats_of(events).drop_last() =~= stats_of(front));
        assert(!state.rolls_over(events[events.len() - 1].1));
    } else {
        assert(stats_of(events) =~= Seq::<Statistic>::empty());
    }
}

/// While the clock does not go back, neither do the bucket starts: an
/// event that is not before the start of the open bucket leaves the start
/// where it is or moves it forward, and the new start is again a multiple of
/// the period.
pub proof fn lemma_bucket_start_monotonic(state: AggregatorView, stat: Statistic, now: int)
    requires
        state.period > 0,
        state.bucket_start % state.period == 0,
        state.bucket_start <= now,
    ensures
        state.bucket_start <= state.after_event(stat, now).bucket_start <= now,
        state.after_event(stat, now).bucket_start % state.period == 0,
        now < state.bucket_start + state.period ==> !state.rolls_over(now),
{
    lemma_bucket_floor(now, state.period);
    lemma_bucket_floor_monotonic(state.bucket_start, now, state.period);
}

/// An empty bucket is never written: neither the timer nor the first event
/// of another bucket yields a line for it, and a bucket that was closed is
/// empty until the next event.
pub proof fn lemma_empty_bucket_is_silent(state: AggregatorView, now: int)
    requires
        state.tally.is_empty(),
    ensures
        state.timer_line() is None,
        state.event_line(now) is None,
        state.cleared().timer_line() is None,
        state.cleared().event_line(now) is None,
{
    lemma_empty_tally();
}

/// The line of a bucket that counted `stats` from empty reports as many
/// events as there are in `stats`, its nine action counts add up to that
/// number, and its unique actors are the distinct actors of `stats`.
pub proof fn lemma_line_reports_events(line: StatLine, start: int, stats: Seq<Statistic>)
    requires
        line.is_line_of(start, Tally::empty().record_all(stats)),
    ensures
        line.total_msgs == stats.len(),
        line.counts_sum() == stats.len(),
        line.unique_users == actor_ids(stats).len(),
        line.unique_users <= line.total_msgs,
{
    lemma_totals_count_events(stats);
    lemma_unique_actors(stats);
    let tally = Tally::empty().record_all(stats);
    assert(line.counts@[0] == tally.actions[0]);
    assert(line.counts@[1] == tally.actions[1]);
    assert(line.counts@[2] == tally.actions[2]);
    assert(line.counts@[3] == tally.actions[3]);
    assert(line.counts@[4] == tally.actions[4]);
    assert(line.counts@[5] == tally.actions[5]);
    assert(line.counts@[6] == tally.actions[6]);
    assert(line.counts@[7] == tally.actions[7]);
    assert(line.counts@[8] == tally.actions[8]);
}

/// A bucket that opens empty and takes `n` events, all inside its period,
/// is written with `n` as its number of events, with nine action counts
/// that add up to `n`, and with the distinct actors of those events as its
/// unique actors. Unless `n` is zero it is written by the timer and by the
/// first event of any other bucket alike.
pub proof fn lemma_bucket_of_events(
    state: AggregatorView,
    events: Seq<(Statistic, int)>,
    line: StatLine,
    later: int,
)
    requires
        state.tally == Tally::empty(),
        forall|i: int| 0 <= i < events.len() ==> !state.rolls_over((#[trigger] events[i]).1),
        line.is_line_of(state.bucket_start, state.after_events(events).tally),
        state.rolls_over(later),
    ensures
        line.total_msgs == events.len(),
        line.counts_sum() == events.len(),
        line.unique_users == actor_ids(stats_of(events)).len(),
        line.unique_users <= events.len(),
        events.len() > 0 ==> state.after_events(events).timer_line() == Some(
            (state.bucket_start, state.after_events(events).tally),
        ),
        events.len() > 0 ==> state.after_events(events).event_line(later) == Some(
            (state.bucket_start, state.after_events(events).tally),
        ),
        events.len() == 0 ==> state.after_events(events).timer_line() is None,
{
    lemma_events_in_one_bucket(state, events);
    lemma_line_reports_events(line, state.bucket_start, stats_of(events));
    lemma_totals_count_events(stats_of(events));
    lemma_empty_tally();
}

impl View for Aggregator {
    type V = AggregatorView;

    closed spec fn view(&self) -> AggregatorView {
        AggregatorView {
            period: self.period as int,
            bucket_start: self.bucket_start as int,
            tally: Tally {
                actions: Seq::new(ACTION_COUNT as nat, |i: int| self.action_counts@[i] as nat),
                actors: Map::new(
                    |id: i64| self.actor_counts@.contains_key(id),
                    |id: i64| self.actor_counts@[id] as nat,
                ),
            },
        }
    }
}

impl Aggregator {
    /// What holds of every aggregator between two steps.
    pub closed spec fn wf(&self) -> bool {
        &&& self.period > 0
        &&& self.bucket_start as int % self.period as int == 0
        &&& self@.tally.wf()
        &&& self.total == self@.tally.action_total()
    }

    /// The period is positive, the open bucket starts at a multiple of it,
    /// the counts are well formed, and the events fit in 64 bits.
    pub proof fn lemma_wf(&self)
        requires
            self.wf(),
        ensures
            self@.period > 0,
            self@.bucket_start % self@.period == 0,
            self@.tally.wf(),
            self@.tally.action_total() <= u64::MAX,
            i64::MIN <= self@.bucket_start <= i64::MAX,
            self@.period <= i64::MAX,
    {
    }

    /// Length of a bucket in nanoseconds.
    pub fn period(&self) -> (period: i64)
        ensures
            period == self@.period,
    {
        self.period
    }

    /// Start of the open bucket in nanoseconds since the epoch.
    pub fn bucket_start(&self) -> (start: i64)
        ensures
            start == self@.bucket_start,
    {
        self.bucket_start
    }

    /// Number of events in the open bucket.
    pub fn total_events(&self) -> (total: u64)
        requires
            self.wf(),
        ensures
            total == self@.tally.action_total(),
            total == self@.tally.actor_total(),
    {
        self.total
    }

    /// Number of distinct actors in the open bucket.
    pub fn unique_actors(&self) -> (actors: usize)
        ensures
            actors == self@.tally.unique_actors(),
    {
        proof {
            assert(self@.tally.actors.dom() =~= self.actor_counts@.dom());
        }
        self.actor_counts.len()
    }

    /// Whether the open bucket has seen no event.
    pub fn is_empty(&self) -> (empty: bool)
        ensures
            empty == self@.tally.is_empty(),
    {
        proof {
            assert(self@.tally.actors.dom() =~= self.actor_counts@.dom());
        }
        self.actor_counts.len() == 0
    }

    /// Occurrences of one action in the open bucket.
    pub fn action_count(&self, action: StatisticAction) -> (count: u64)
        ensures
            count == self@.tally.actions[action.ordinal()],
    {
        self.action_counts[action.index()]
    }

    /// Occurrences of one actor in the open bucket.
    pub fn actor_count(&self, id: i64) -> (count: u64)
        ensures
            count == self@.tally.count_of(id),
    {
        match self.actor_counts.get(&id) {
            Some(count) => *count,
            None => 0,
        }
    }

    /// Whether `made` is what opening the first bucket at `now` gives: an
    /// aggregator with the empty bucket that holds `now` and a timer set to
    /// the end of that bucket; or a refusal, of a period that is not
    /// positive or else of an instant whose bucket would start too early.
    pub open spec fn opened(
        now: int,
        period: int,
        made: Result<(Aggregator, Timer), StatError>,
    ) -> bool {
        match made {
            Ok((aggregator, timer)) => {
                &&& period > 0
                &&& bucket_floor(now, period) >= i64::MIN
                &&& aggregator.wf()
                &&& aggregator@ == (AggregatorView {
                    period: period,
                    bucket_start: bucket_floor(now, period),
                    tally: Tally::empty(),
                })
                &&& timer == Timer::After((period - (now - bucket_floor(now, period))) as u64)
            },
            Err(error) => {
                &&& period <= 0 ==> error == StatError::BadPeriod
                &&& period > 0 ==> error == StatError::TimeOutOfRange && bucket_floor(now, period)
                    < i64::MIN
            },
        }
    }

    /// Opens the first bucket: the one that holds `now`. The timer is to
    /// fire when that bucket ends.
    pub fn start(now: i64, period: i64) -> (made: Result<(Aggregator, Timer), StatError>)
        ensures
            Self::opened(now as int, period as int, made),
    {
        if period <= 0 {
            return Err(StatError::BadPeriod);
        }
        match locate(now, period) {
            Some((bucket_start, left)) => {
                let aggregator = Aggregator {
                    period,
                    bucket_start,
                    action_counts: [0, 0, 0, 0, 0, 0, 0, 0, 0],
                    actor_counts: HashMap::new(),
                    total: 0,
                };
                proof {
                    lemma_bucket_floor(now as int, period as int);
                    lemma_empty_tally();
                    assert(aggregator@.tally.actions =~= Tally::empty().actions);
                    assert(aggregator@.tally.actors =~= Tally::empty().actors);
                }
                Ok((aggregator, Timer::After(left)))
            },
            None => Err(StatError::TimeOutOfRange),
        }
    }

    /// Counts one event in the open bucket.
    fn count(&mut self, stat: Statistic)
        requires
            old(self).wf(),
            old(self)@.tally.action_total() < u64::MAX,
        ensures
            final(self).wf(),
            final(self)@ == (AggregatorView {
                period: old(self)@.period,
                bucket_start: old(self)@.bucket_start,
                tally: old(self)@.tally.record(stat),
            }),
    {
        let ghost before = self@.tally;
        proof {
            lemma_count_within_total(before, stat.user_id);
            lemma_record(before, stat);
        }
        let column = stat.action.index();
        let seen = self.action_counts[column];
        self.action_counts[column] = seen + 1;
        let known = match self.actor_counts.get(&stat.user_id) {
            Some(count) => *count,
            None => 0,
        };
        assert(known == before.count_of(stat.user_id));
        self.actor_counts.insert(stat.user_id, known + 1);
        self.total = self.total + 1;
        proof {
            assert(self@.tally.actions =~= before.record(stat).actions);
            assert(self@.tally.actors =~= before.record(stat).actors);
        }
    }

    /// Closes the open bucket: hands out its line, if it counted anything,
    /// and leaves the counts empty.
    fn flush(&mut self) -> (line: Option<StatLine>)
        requires
            old(self).wf(),
        ensures
            final(self).wf(),
            final(self)@ == old(self)@.cleared(),
            match line {
                Some(l) => !old(self)@.tally.is_empty() && l.is_line_of(
                    old(self)@.bucket_start,
                    old(self)@.tally,
                ),
                None => old(self)@.tally.is_empty(),
            },
    {
        let ghost before = self@.tally;
        proof {
            lemma_empty_tally();
            assert(before.actors.dom() =~= self.actor_counts@.dom());
        }
        if self.actor_counts.is_empty() {
            proof {
                assert(before.actors =~= Map::<i64, nat>::empty());
                assert(self@.tally.actions =~= Tally::empty().actions);
                assert(self@.tally.actors =~= Tally::empty().actors);
            }
            return None;
        }
        let line = StatLine {
            bucket_start: self.bucket_start,
            unique_users: self.actor_counts.len() as u64,
            total_msgs: self.total,
            counts: self.action_counts,
        };
        self.actor_counts.clear();
        self.action_counts = [0, 0, 0, 0, 0, 0, 0, 0, 0];
        self.total = 0;
        proof {
            assert(self@.tally.actions =~= Tally::empty().actions);
            assert(self@.tally.actors =~= Tally::empty().actors);
        }
        Some(line)
    }

    /// Takes one event that arrived at `now`.
    ///
    /// If `now` lies in another bucket than the open one, the open bucket
    /// is closed first, and its line handed out unless it is empty. The
    /// event is then counted, and the timer is to fire when the bucket of
    /// `now` ends. On an error nothing changes.
    ///
    /// The open bucket must have room for the event: see `has_room`.
    pub fn on_event(&mut self, stat: Statistic, now: i64) -> (taken: Result<Step, StatError>)
        requires
            old(self).wf(),
            old(self)@.has_room(now as int),
        ensures
            final(self).wf(),
            old(self)@.took_event(stat, now as int, final(self)@, taken),
    {
        let (bucket_start, left) = match locate(now, self.period) {
            Some(found) => found,
            None => {
                return Err(StatError::TimeOutOfRange);
            },
        };
        let mut line: Option<StatLine> = None;
        if bucket_start != self.bucket_start {
            line = self.flush();
            self.bucket_start = bucket_start;
            proof {
                lemma_bucket_floor(now as int, self.period as int);
                lemma_empty_tally();
            }
        }
        self.count(stat);
        Ok(Step { line, timer: Timer::After(left) })
    }

    /// Takes the firing of the timer: traffic stopped before the open
    /// bucket was rolled over.
    ///
    /// The bucket is closed, and its line handed out unless it is empty.
    /// The timer is to stay idle until the next event.
    pub fn on_timer(&mut self) -> (step: Step)
        requires
            old(self).wf(),
        ensures
            final(self).wf(),
            final(self)@ == old(self)@.cleared(),
            step.timer == Timer::Idle,
            step.line is Some <==> old(self)@.timer_line() is Some,
            step.line matches Some(line) ==> line.is_line_of(
                old(self)@.bucket_start,
                old(self)@.tally,
            ),
    {
        let line = self.flush();
        Step { line, timer: Timer::Idle }
    }

    /// Ends the statistics: closes the open bucket for good and hands out
    /// its line, unless it is empty.
    pub fn close(self) -> (line: Option<StatLine>)
        requires
            self.wf(),
        ensures
            line is Some <==> self@.timer_line() is Some,
            line matches Some(last) ==> last.is_line_of(self@.bucket_start, self@.tally),
    {
        let mut closing = self;
        closing.flush()
    }
}

} // verus!
