use unicode_bot::clock::locate;
use unicode_bot::digits::push_signed_decimal;
use unicode_bot::stats::{header, log_path, Aggregator, StatError, StatLine, Timer, HOUR_NANOS};
use unicode_bot::tally::{Statistic, StatisticAction};

const SECOND: i64 = 1_000_000_000;
// 2024-01-01T12:00:00Z
const NOON: i64 = 1_704_110_400 * SECOND;

fn stat(user_id: i64, action: StatisticAction) -> Statistic {
    Statistic { user_id, action }
}

#[test]
fn bucket_start_is_the_floor_of_the_instant() {
    assert_eq!(locate(NOON, HOUR_NANOS), Some((NOON, HOUR_NANOS as u64)));
    assert_eq!(locate(NOON + 1, HOUR_NANOS), Some((NOON, HOUR_NANOS as u64 - 1)));
    assert_eq!(locate(NOON + HOUR_NANOS - 1, HOUR_NANOS), Some((NOON, 1)));
    assert_eq!(locate(NOON + HOUR_NANOS, HOUR_NANOS), Some((NOON + HOUR_NANOS, HOUR_NANOS as u64)));
    assert_eq!(locate(17, 5), Some((15, 3)));
    assert_eq!(locate(0, 5), Some((0, 5)));
}

#[test]
fn instants_before_the_epoch_round_down() {
    assert_eq!(locate(-1, 10), Some((-10, 1)));
    assert_eq!(locate(-10, 10), Some((-10, 10)));
    assert_eq!(locate(-11, 10), Some((-20, 1)));
    assert_eq!(locate(-19, 10), Some((-20, 9)));
    assert_eq!(locate(-1, HOUR_NANOS), Some((-HOUR_NANOS, 1)));
}

#[test]
fn no_bucket_without_a_positive_period_or_below_the_range() {
    assert_eq!(locate(NOON, 0), None);
    assert_eq!(locate(NOON, -5), None);
    assert_eq!(locate(i64::MIN + 1, HOUR_NANOS), None);
    assert_eq!(locate(i64::MIN, 1), Some((i64::MIN, 1)));
    assert_eq!(locate(i64::MAX, i64::MAX), Some((i64::MAX, i64::MAX as u64)));
    assert_eq!(locate(i64::MAX, 1), Some((i64::MAX, 1)));
}

#[test]
fn start_opens_the_bucket_of_now() {
    let (aggregator, timer) = Aggregator::start(NOON + 20 * 60 * SECOND, HOUR_NANOS).unwrap();
    assert_eq!(aggregator.bucket_start(), NOON);
    assert_eq!(aggregator.period(), HOUR_NANOS);
    assert_eq!(aggregator.total_events(), 0);
    assert_eq!(aggregator.unique_actors(), 0);
    assert!(aggregator.is_empty());
    assert_eq!(timer, Timer::After(40 * 60 * SECOND as u64));
}

#[test]
fn start_refuses_what_has_no_bucket() {
    assert_eq!(Aggregator::start(NOON, 0).err(), Some(StatError::BadPeriod));
    assert_eq!(Aggregator::start(NOON, -1).err(), Some(StatError::BadPeriod));
    assert_eq!(Aggregator::start(i64::MIN + 5, HOUR_NANOS).err(), Some(StatError::TimeOutOfRange));
}

#[test]
fn three_events_in_one_bucket() {
    let (mut aggregator, _) = Aggregator::start(NOON, HOUR_NANOS).unwrap();
    let step = aggregator.on_event(stat(1, StatisticAction::Breakdown), NOON + SECOND).unwrap();
    assert!(step.line.is_none());
    assert_eq!(step.timer, Timer::After((HOUR_NANOS - SECOND) as u64));
    let step = aggregator.on_event(stat(1, StatisticAction::Help), NOON + 2 * SECOND).unwrap();
    assert!(step.line.is_none());
    let step = aggregator.on_event(stat(2, StatisticAction::Breakdown), NOON + 3 * SECOND).unwrap();
    assert!(step.line.is_none());
    assert_eq!(step.timer, Timer::After((HOUR_NANOS - 3 * SECOND) as u64));
    assert_eq!(aggregator.total_events(), 3);
    assert_eq!(aggregator.unique_actors(), 2);
    assert_eq!(aggregator.action_count(StatisticAction::Breakdown), 2);
    assert_eq!(aggregator.action_count(StatisticAction::Help), 1);
    assert_eq!(aggregator.action_count(StatisticAction::Inline), 0);
    assert_eq!(aggregator.actor_count(1), 2);
    assert_eq!(aggregator.actor_count(2), 1);
    assert_eq!(aggregator.actor_count(3), 0);

    let step = aggregator.on_timer();
    assert_eq!(step.timer, Timer::Idle);
    let line = step.line.unwrap();
    assert_eq!(line.bucket_start, NOON);
    assert_eq!(line.unique_users, 2);
    assert_eq!(line.total_msgs, 3);
    assert_eq!(line.counts, [2, 0, 1, 0, 0, 0, 0, 0, 0]);
    assert_eq!(line.render(), "2024-01-01T12:00:00+00:00, 2, 3, 2, 0, 1, 0, 0, 0, 0, 0, 0");
    assert!(aggregator.is_empty());
    assert_eq!(aggregator.total_events(), 0);
    assert_eq!(aggregator.bucket_start(), NOON);
}

#[test]
fn next_bucket_rolls_the_open_one_over() {
    let (mut aggregator, _) = Aggregator::start(NOON, HOUR_NANOS).unwrap();
    for (user, action) in [
        (7, StatisticAction::Raw),
        (8, StatisticAction::Filter),
        (7, StatisticAction::Codepoint),
        (9, StatisticAction::Unique),
        (7, StatisticAction::BadCmd),
        (8, StatisticAction::Inline),
        (-4, StatisticAction::StartAbout),
    ] {
        let step = aggregator.on_event(stat(user, action), NOON + 59 * 60 * SECOND).unwrap();
        assert!(step.line.is_none());
    }
    let later = NOON + 3 * HOUR_NANOS + 15 * 60 * SECOND;
    let step = aggregator.on_event(stat(5, StatisticAction::Help), later).unwrap();
    assert_eq!(step.timer, Timer::After(45 * 60 * SECOND as u64));
    let line = step.line.unwrap();
    assert_eq!(line.bucket_start, NOON);
    assert_eq!(line.unique_users, 4);
    assert_eq!(line.total_msgs, 7);
    assert_eq!(line.counts, [0, 1, 0, 1, 1, 1, 1, 1, 1]);
    assert_eq!(line.counts.iter().sum::<u64>(), line.total_msgs);
    assert_eq!(line.render(), "2024-01-01T12:00:00+00:00, 4, 7, 0, 1, 0, 1, 1, 1, 1, 1, 1");
    assert_eq!(aggregator.bucket_start(), NOON + 3 * HOUR_NANOS);
    assert_eq!(aggregator.total_events(), 1);
    assert_eq!(aggregator.unique_actors(), 1);
    assert_eq!(aggregator.action_count(StatisticAction::Help), 1);
    assert_eq!(aggregator.actor_count(7), 0);
}

#[test]
fn empty_bucket_writes_nothing() {
    let (mut aggregator, _) = Aggregator::start(NOON, HOUR_NANOS).unwrap();
    let step = aggregator.on_timer();
    assert!(step.line.is_none());
    assert_eq!(step.timer, Timer::Idle);
    let step = aggregator.on_event(stat(1, StatisticAction::Breakdown), NOON + HOUR_NANOS).unwrap();
    assert!(step.line.is_none());
    assert_eq!(aggregator.bucket_start(), NOON + HOUR_NANOS);
    let first = aggregator.on_timer();
    assert!(first.line.is_some());
    let second = aggregator.on_timer();
    assert!(second.line.is_none());
}

#[test]
fn a_bucket_is_written_once() {
    let (mut aggregator, _) = Aggregator::start(NOON, HOUR_NANOS).unwrap();
    aggregator.on_event(stat(1, StatisticAction::Breakdown), NOON).unwrap();
    let fired = aggregator.on_timer();
    assert_eq!(fired.line.unwrap().total_msgs, 1);
    let step = aggregator.on_event(stat(1, StatisticAction::Breakdown), NOON + HOUR_NANOS).unwrap();
    assert!(step.line.is_none());
    let step = aggregator.on_event(stat(1, StatisticAction::Breakdown), NOON + 2 * HOUR_NANOS).unwrap();
    let line = step.line.unwrap();
    assert_eq!(line.bucket_start, NOON + HOUR_NANOS);
    assert_eq!(line.total_msgs, 1);
}

#[test]
fn unique_users_are_the_distinct_actors() {
    let (mut aggregator, _) = Aggregator::start(NOON, HOUR_NANOS).unwrap();
    let actors = [3i64, 1, 3, 3, 2, 1, i64::MIN, i64::MAX, 0, 0];
    for actor in actors {
        aggregator.on_event(stat(actor, StatisticAction::Inline), NOON + 5).unwrap();
    }
    let line = aggregator.on_timer().line.unwrap();
    assert_eq!(line.unique_users, 6);
    assert_eq!(line.total_msgs, 10);
    assert_eq!(line.counts, [0, 0, 0, 0, 0, 0, 0, 0, 10]);
}

#[test]
fn event_outside_the_range_changes_nothing() {
    let (mut aggregator, _) = Aggregator::start(NOON, HOUR_NANOS).unwrap();
    aggregator.on_event(stat(1, StatisticAction::Breakdown), NOON).unwrap();
    let refused = aggregator.on_event(stat(2, StatisticAction::Help), i64::MIN + 1);
    assert_eq!(refused.err(), Some(StatError::TimeOutOfRange));
    assert_eq!(aggregator.total_events(), 1);
    assert_eq!(aggregator.bucket_start(), NOON);
}

#[test]
fn lines_render_dates_before_and_after_the_epoch() {
    let (mut aggregator, _) = Aggregator::start(0, HOUR_NANOS).unwrap();
    aggregator.on_event(stat(1, StatisticAction::Raw), 5).unwrap();
    let line = aggregator.on_timer().line.unwrap();
    assert_eq!(line.render(), "1970-01-01T00:00:00+00:00, 1, 1, 0, 0, 0, 1, 0, 0, 0, 0, 0");
    let (mut aggregator, _) = Aggregator::start(-1, HOUR_NANOS).unwrap();
    aggregator.on_event(stat(1, StatisticAction::Raw), -1).unwrap();
    let line = aggregator.on_timer().line.unwrap();
    assert_eq!(line.render(), "1969-12-31T23:00:00+00:00, 1, 1, 0, 0, 0, 1, 0, 0, 0, 0, 0");
}

#[test]
fn header_names_the_columns() {
    assert_eq!(
        header(),
        "Hour, Unique Users, Total Msgs, Breakdown, StartAbout, Help, Raw, Filter, Codepoint, Unique, BadCmd, Inline"
    );
    assert_eq!(header().split(", ").count(), 12);
    assert_eq!(StatisticAction::Breakdown.index(), 0);
    assert_eq!(StatisticAction::StartAbout.index(), 1);
    assert_eq!(StatisticAction::Help.index(), 2);
    assert_eq!(StatisticAction::Raw.index(), 3);
    assert_eq!(StatisticAction::Filter.index(), 4);
    assert_eq!(StatisticAction::Codepoint.index(), 5);
    assert_eq!(StatisticAction::Unique.index(), 6);
    assert_eq!(StatisticAction::BadCmd.index(), 7);
    assert_eq!(StatisticAction::Inline.index(), 8);
}

#[test]
fn closing_hands_out_the_open_bucket() {
    let (mut aggregator, _) = Aggregator::start(NOON, HOUR_NANOS).unwrap();
    aggregator.on_event(stat(4, StatisticAction::Unique), NOON + 7).unwrap();
    aggregator.on_event(stat(4, StatisticAction::Unique), NOON + 8).unwrap();
    let line = aggregator.close().unwrap();
    assert_eq!(line.bucket_start, NOON);
    assert_eq!(line.unique_users, 1);
    assert_eq!(line.total_msgs, 2);
    assert_eq!(line.counts, [0, 0, 0, 0, 0, 0, 2, 0, 0]);
    let (aggregator, _) = Aggregator::start(NOON, HOUR_NANOS).unwrap();
    assert!(aggregator.close().is_none());
}

#[test]
fn one_log_per_calendar_year() {
    assert_eq!(log_path(2024), "logs/stats_2024.csv");
    assert_eq!(log_path(1999), "logs/stats_1999.csv");
    assert_eq!(log_path(0), "logs/stats_0.csv");
    assert_eq!(log_path(-44), "logs/stats_-44.csv");
    let mut out = String::new();
    push_signed_decimal(&mut out, i32::MIN);
    out.push(' ');
    push_signed_decimal(&mut out, i32::MAX);
    out.push(' ');
    push_signed_decimal(&mut out, -1);
    assert_eq!(out, "-2147483648 2147483647 -1");
}

#[test]
fn bucket_starts_do_not_go_back_with_the_clock() {
    let (mut aggregator, _) = Aggregator::start(NOON, HOUR_NANOS).unwrap();
    let mut last = aggregator.bucket_start();
    let mut now = NOON;
    for step in [1, 59 * 60, 2 * 60, 3600, 7200, 1, 1800, 1800, 86400] {
        now += step * SECOND;
        aggregator.on_event(stat(1, StatisticAction::Breakdown), now).unwrap();
        assert!(aggregator.bucket_start() >= last);
        assert!(aggregator.bucket_start() <= now);
        assert_eq!(aggregator.bucket_start() % HOUR_NANOS, 0);
        last = aggregator.bucket_start();
    }
}

#[test]
fn totals_agree_for_many_events() {
    let (mut aggregator, _) = Aggregator::start(NOON, HOUR_NANOS).unwrap();
    let actions = [
        StatisticAction::Breakdown,
        StatisticAction::StartAbout,
        StatisticAction::Help,
        StatisticAction::Raw,
        StatisticAction::Filter,
        StatisticAction::Codepoint,
        StatisticAction::Unique,
        StatisticAction::BadCmd,
        StatisticAction::Inline,
    ];
    for i in 0..1000usize {
        let action = actions[(i * 7) % 9];
        aggregator.on_event(stat((i % 37) as i64, action), NOON + i as i64).unwrap();
    }
    assert_eq!(aggregator.total_events(), 1000);
    assert_eq!(aggregator.unique_actors(), 37);
    let line = aggregator.on_timer().line.unwrap();
    assert_eq!(line.total_msgs, 1000);
    assert_eq!(line.unique_users, 37);
    assert_eq!(line.counts.iter().sum::<u64>(), 1000);
}

#[test]
fn fields_follow_the_bucket_start() {
    let line = StatLine {
        bucket_start: NOON,
        unique_users: 12,
        total_msgs: 345,
        counts: [1, 20, 300, 4, 5, 6, 7, 0, 2],
    };
    assert_eq!(line.render_after("then".to_string()), "then, 12, 345, 1, 20, 300, 4, 5, 6, 7, 0, 2");
    assert_eq!(line.render_after(String::new()), ", 12, 345, 1, 20, 300, 4, 5, 6, 7, 0, 2");
    assert_eq!(line.render(), "2024-01-01T12:00:00+00:00, 12, 345, 1, 20, 300, 4, 5, 6, 7, 0, 2");
    let full = StatLine {
        bucket_start: NOON + 30 * 60 * SECOND + 1,
        unique_users: u64::MAX,
        total_msgs: u64::MAX,
        counts: [u64::MAX; 9],
    };
    let rendered = full.render();
    assert!(rendered.starts_with("2024-01-01T12:30:00.000000001+00:00, 18446744073709551615, "));
    assert_eq!(rendered.matches("18446744073709551615").count(), 11);
}
