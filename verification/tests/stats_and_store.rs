use std::collections::VecDeque;

use join_watch::clock::{current_hour, ClockError};
use join_watch::counter::{Record, BACKLOG_SIZE};
use join_watch::stats::{collect_samples, Stat, Threshold};
use join_watch::store::GuildJoinsMap;

const H: u64 = 480_000;

fn stat_with(uq: u64, n: usize, current: u32) -> Stat {
    Stat { sum: 0, max: uq, uq, median: 0, lq: 0, min: 0, n, current }
}

fn record(current_hour: u64, log: VecDeque<Option<u32>>, current: u32) -> Record {
    Record { current_hour, log, current }
}

fn gaps(n: usize) -> VecDeque<Option<u32>> {
    std::iter::repeat(None).take(n).collect()
}

#[test]
fn samples_leave_out_gaps() {
    let history: VecDeque<Option<u32>> =
        vec![None, Some(4), None, Some(0), Some(9), None].into_iter().collect();
    assert_eq!(collect_samples(&history), vec![4, 0, 9]);
    assert_eq!(collect_samples(&gaps(10)), Vec::<u32>::new());
}

#[test]
fn compute_over_a_short_history() {
    let history: VecDeque<Option<u32>> =
        vec![Some(40), None, Some(10), Some(30), Some(20)].into_iter().collect();
    let stat = Stat::compute(&history, 11);
    assert_eq!(stat.n, 4);
    assert_eq!(stat.sum, 100);
    assert_eq!(stat.sum as f64 / stat.n as f64, 25.0);
    assert_eq!((stat.min, stat.lq, stat.median, stat.uq, stat.max), (40, 70, 100, 130, 160));
    assert_eq!(stat.current, 11);
    let empty = Stat::compute(&gaps(5), 11);
    assert!(empty.is_empty());
    assert_eq!((empty.sum, empty.min, empty.uq, empty.max), (0, 0, 0, 0));
}

#[test]
fn statistics_ignore_the_order_of_samples() {
    let a = Stat::of_samples(&[3, 1, 4, 1, 5, 9, 2, 6], 0);
    let b = Stat::of_samples(&[9, 6, 5, 4, 3, 2, 1, 1], 0);
    assert_eq!(a, b);
    assert_eq!(a.median, 4 * 3 + 2);
}

#[test]
fn standard_threshold() {
    assert_eq!(Threshold::standard(), Threshold { floor: 8, multiplier: 2, margin: 5 });
}

#[test]
fn nothing_is_abnormal_without_samples() {
    assert!(!stat_with(0, 0, 9).is_abnormal());
    assert!(!stat_with(0, 0, u32::MAX).is_abnormal());
    let lax = Threshold { floor: 0, multiplier: 0, margin: 0 };
    assert!(!stat_with(0, 0, 100).is_abnormal_under(&lax));
    assert!(stat_with(0, 1, 100).is_abnormal_under(&lax));
}

#[test]
fn counts_up_to_the_floor_are_normal() {
    assert!(!stat_with(0, 5, 8).is_abnormal());
    assert!(!stat_with(0, 5, 0).is_abnormal());
    assert!(stat_with(0, 5, 9).is_abnormal());
}

#[test]
fn abnormal_is_above_twice_the_upper_quartile_plus_five() {
    // upper quartile 2: bound 9
    assert!(!stat_with(8, 3, 9).is_abnormal());
    assert!(stat_with(8, 3, 10).is_abnormal());
    // upper quartile 32.5: bound 70
    assert!(!stat_with(130, 4, 70).is_abnormal());
    assert!(stat_with(130, 4, 71).is_abnormal());
    // upper quartile 2.25: bound 9.5
    assert!(!stat_with(9, 4, 9).is_abnormal());
    assert!(stat_with(9, 4, 10).is_abnormal());
}

#[test]
fn abnormal_under_another_threshold() {
    let policy = Threshold { floor: 2, multiplier: 3, margin: 1 };
    // upper quartile 1.5: bound 5.5
    assert!(!stat_with(6, 2, 5).is_abnormal_under(&policy));
    assert!(stat_with(6, 2, 6).is_abnormal_under(&policy));
    assert!(!stat_with(0, 2, 2).is_abnormal_under(&policy));
    let steep = Threshold { floor: 0, multiplier: u32::MAX, margin: u32::MAX };
    assert!(!stat_with(u64::MAX, 1, u32::MAX).is_abnormal_under(&steep));
}

#[test]
fn store_creates_a_counter_on_first_touch() {
    let mut store = GuildJoinsMap::new();
    assert_eq!(store.len(), 0);
    assert!(!store.contains(42));
    assert!(store.get(42).is_none());
    let (stat, moved) = store.add_at(42, 1, H);
    assert!(!moved);
    assert!(stat.is_empty());
    assert_eq!(stat.current, 1);
    assert!(store.contains(42));
    assert_eq!(store.len(), 1);
    let counter = store.get(42).unwrap();
    assert_eq!(counter.current_hour(), H);
    assert_eq!(counter.current(), 1);
}

#[test]
fn store_counts_three_joins_then_answers_a_query() {
    let mut store = GuildJoinsMap::new();
    store.add_at(1, 1, H);
    store.add_at(1, 1, H);
    let (stat, moved) = store.add_at(1, 1, H);
    assert!(!moved);
    assert_eq!(stat.current, 3);
    assert!(stat.is_empty());
    let (stat, moved) = store.query_at(1, H + 1);
    assert!(moved);
    assert_eq!(stat.current, 0);
    assert_eq!(stat.n, 1);
    assert_eq!(stat.sum, 3);
    assert_eq!((stat.min, stat.lq, stat.median, stat.uq, stat.max), (12, 12, 12, 12, 12));
    assert_eq!(store.get(1).unwrap().log().back(), Some(&Some(3)));
}

#[test]
fn store_keeps_groups_apart() {
    let mut store = GuildJoinsMap::new();
    store.add_at(1, 5, H);
    store.add_at(2, 7, H);
    store.add_at(1, 1, H + 1);
    assert_eq!(store.get(1).unwrap().current(), 1);
    assert_eq!(store.get(1).unwrap().current_hour(), H + 1);
    assert_eq!(store.get(2).unwrap().current(), 7);
    assert_eq!(store.get(2).unwrap().current_hour(), H);
    let mut guilds = store.guilds();
    guilds.sort();
    assert_eq!(guilds, vec![1, 2]);
}

#[test]
fn store_lists_every_record_once() {
    let mut store = GuildJoinsMap::new();
    assert!(store.records().is_empty());
    assert!(store.guilds().is_empty());
    store.add_at(10, 1, H);
    store.add_at(20, 2, H + 1);
    store.add_at(30, 3, H + 2);
    store.add_at(20, 5, H + 3);
    let mut listed = store.records();
    listed.sort_by_key(|(guild, _)| *guild);
    assert_eq!(listed.len(), 3);
    assert_eq!(listed[0].0, 10);
    assert_eq!((listed[0].1.current_hour, listed[0].1.current), (H, 1));
    assert_eq!(listed[1].0, 20);
    assert_eq!((listed[1].1.current_hour, listed[1].1.current), (H + 3, 5));
    assert_eq!(listed[1].1.log[BACKLOG_SIZE - 2], Some(2));
    assert_eq!(listed[1].1.log[BACKLOG_SIZE - 1], None);
    assert_eq!(listed[1].1.log.len(), BACKLOG_SIZE);
    assert_eq!(listed[2].0, 30);
    assert_eq!((listed[2].1.current_hour, listed[2].1.current), (H + 2, 3));
    // a store that starts from these records is the same store
    let mut again = GuildJoinsMap::new();
    for (guild, stored) in listed {
        assert_eq!(again.enroll_at(guild, Some(stored), H + 3), Ok(guild != 20));
    }
    assert_eq!(again.get(20).unwrap().record(), store.get(20).unwrap().record());
    assert_eq!(again.get(10).unwrap().current_hour(), H + 3);
    assert_eq!(again.get(10).unwrap().log()[BACKLOG_SIZE - 3], Some(1));
}

#[test]
fn store_burst_is_abnormal() {
    let mut store = GuildJoinsMap::new();
    for hour in 0..10u64 {
        store.add_at(3, 2, H + hour);
    }
    let (calm, _) = store.add_at(3, 7, H + 10);
    assert_eq!(calm.n, 10);
    assert_eq!(calm.uq, 8);
    assert_eq!(calm.current, 7);
    assert!(!calm.is_abnormal());
    let (still, _) = store.add_at(3, 2, H + 10);
    assert_eq!(still.current, 9);
    assert!(!still.is_abnormal());
    let before = Stat::compute(store.get(3).unwrap().log(), 9);
    assert_eq!(before, still);
    let (burst, _) = store.add_at(3, 1, H + 10);
    assert_eq!(burst.current, 10);
    assert!(burst.is_abnormal());
}

#[test]
fn enroll_takes_a_record_only_for_a_new_group() {
    let mut store = GuildJoinsMap::new();
    let mut log = gaps(BACKLOG_SIZE);
    log[BACKLOG_SIZE - 1] = Some(6);
    assert_eq!(store.enroll_at(9, Some(record(H - 1, log.clone(), 4)), H), Ok(true));
    let counter = store.get(9).unwrap();
    assert_eq!(counter.current_hour(), H);
    assert_eq!(counter.current(), 0);
    assert_eq!(counter.log()[BACKLOG_SIZE - 1], Some(4));
    assert_eq!(counter.log()[BACKLOG_SIZE - 2], Some(6));
    // a second record for the same group is ignored
    assert_eq!(store.enroll_at(9, Some(record(H, gaps(BACKLOG_SIZE), 50)), H), Ok(false));
    assert_eq!(store.get(9).unwrap().current(), 0);
    assert_eq!(store.get(9).unwrap().log()[BACKLOG_SIZE - 1], Some(4));
    // even one from the future
    assert_eq!(store.enroll_at(9, Some(record(H + 9, gaps(BACKLOG_SIZE), 50)), H), Ok(false));
    assert_eq!(store.len(), 1);
}

#[test]
fn enroll_without_a_sound_record_starts_fresh() {
    let mut store = GuildJoinsMap::new();
    assert_eq!(store.enroll_at(1, None, H), Ok(false));
    assert_eq!(store.enroll_at(2, Some(record(H - 1, gaps(2), 4)), H), Ok(false));
    assert_eq!(store.enroll_at(3, Some(record(H, gaps(BACKLOG_SIZE), 4)), H), Ok(false));
    assert_eq!(store.get(1).unwrap().current(), 0);
    assert_eq!(store.get(2).unwrap().current(), 0);
    assert_eq!(store.get(2).unwrap().current_hour(), H);
    assert_eq!(store.get(3).unwrap().current(), 4);
    assert_eq!(store.len(), 3);
}

#[test]
fn enroll_refuses_a_record_from_the_future() {
    let mut store = GuildJoinsMap::new();
    assert_eq!(
        store.enroll_at(1, Some(record(H + 1, gaps(BACKLOG_SIZE), 4)), H),
        Err(ClockError::Regression)
    );
    assert!(!store.contains(1));
    assert_eq!(store.len(), 0);
}

#[test]
fn store_follows_the_wall_clock() {
    let now = current_hour().unwrap();
    let mut store = GuildJoinsMap::new();
    assert_eq!(store.enroll(5, Some(record(now - 1, gaps(BACKLOG_SIZE), 3))), Ok(true));
    let (stat, _) = store.add(5, 1).unwrap();
    // the closed hour of the record, and one more if the hour has just turned
    assert!(stat.n == 1 || stat.n == 2);
    assert_eq!(stat.sum, 3);
    assert_eq!(stat.max, 12);
    let (fresh, moved) = store.add(6, 2).unwrap();
    assert!(!moved);
    assert_eq!(fresh.current, 2);
    assert!(fresh.is_empty());
    let (seen, moved) = store.query(6).unwrap();
    assert_eq!(seen.current, if moved { 0 } else { 2 });
    assert_eq!(store.len(), 2);
}

#[test]
fn store_with_a_counter_from_the_future_is_a_clock_regression() {
    let far = u64::MAX / 3600 + 1;
    let mut store = GuildJoinsMap::new();
    store.add_at(1, 4, far);
    assert!(matches!(store.add(1, 1), Err(ClockError::Regression)));
    assert!(matches!(store.query(1), Err(ClockError::Regression)));
    assert_eq!(store.get(1).unwrap().current(), 4);
    assert_eq!(
        store.enroll(2, Some(record(far, gaps(BACKLOG_SIZE), 0))),
        Err(ClockError::Regression)
    );
    assert!(!store.contains(2));
    // other groups are not held back by it
    assert!(store.add(3, 1).is_ok());
}

#[test]
fn quartiles_are_in_order_between_the_extremes() {
    let stat = Stat::of_samples(&[12, 0, 7, 7, 90, 3, 41, 5, 5, 1000, 2], 0);
    assert!(stat.min <= stat.lq);
    assert!(stat.lq <= stat.median);
    assert!(stat.median <= stat.uq);
    assert!(stat.uq <= stat.max);
    assert_eq!(stat.min, 0);
    assert_eq!(stat.max, 4000);
    assert_eq!(stat.median, 28);
    // position 2.5: halfway between 3 and 5
    assert_eq!(stat.lq, 16);
    // position 7.5: halfway between 12 and 41
    assert_eq!(stat.uq, 106);
    assert_eq!(stat.n, 11);
    assert_eq!(stat.sum, 1172);
}

#[test]
fn store_counts_on_a_reading() {
    let mut store = GuildJoinsMap::new();
    // a group without a counter takes any hour
    assert_eq!(store.arrival(1, Ok(3)), Ok(3));
    assert_eq!(store.arrival(1, Err(ClockError::BeforeEpoch)), Err(ClockError::BeforeEpoch));
    let (stat, moved) = store.add_on(1, 2, Ok(H)).unwrap();
    assert!(!moved);
    assert_eq!(stat.current, 2);
    assert_eq!(store.arrival(1, Ok(H)), Ok(H));
    assert_eq!(store.arrival(1, Ok(H + 1)), Ok(H + 1));
    assert_eq!(store.arrival(1, Ok(H - 1)), Err(ClockError::Regression));
    assert_eq!(store.arrival(2, Ok(H - 1)), Ok(H - 1));
    let (stat, moved) = store.add_on(1, 5, Ok(H + 1)).unwrap();
    assert!(moved);
    assert_eq!((stat.current, stat.n, stat.sum), (5, 1, 2));
}

#[test]
fn store_counts_nothing_on_a_faulty_reading() {
    let mut store = GuildJoinsMap::new();
    store.add_at(1, 4, H);
    assert!(matches!(store.add_on(1, 1, Ok(H - 1)), Err(ClockError::Regression)));
    assert!(matches!(
        store.add_on(1, 1, Err(ClockError::BeforeEpoch)),
        Err(ClockError::BeforeEpoch)
    ));
    assert!(matches!(
        store.add_on(2, 1, Err(ClockError::BeforeEpoch)),
        Err(ClockError::BeforeEpoch)
    ));
    assert_eq!(store.get(1).unwrap().current(), 4);
    assert_eq!(store.get(1).unwrap().current_hour(), H);
    assert!(!store.contains(2));
    assert_eq!(store.len(), 1);
}
