use jepsen_rs::controller::GeneratorGroupStrategy;
use jepsen_rs::utils::{add_in_range, select_numbers_from_range, Counter, OverflowingAddRange};

#[test]
fn test_counter() {
    let mut c = Counter::new(3);
    assert!(!c.over());
    let _ = c.count();
    assert_eq!(c.get_cur(), 2);
    assert!(!c.over());
    let _ = c.count();
    let _ = c.count();
    assert!(c.over());
    assert_eq!(c.count().unwrap_err(), "counter over");
    c.reset();
    assert_eq!(c.get_cur(), 3);
}

#[test]
fn counter_set_replaces_total() {
    let mut c = Counter::new(1);
    c.set(4);
    assert_eq!(c.get_total(), 4);
    assert_eq!(c.get_cur(), 4);
}

#[test]
fn test_select_numbers_from_range() {
    assert_eq!(select_numbers_from_range(3, 2), vec![0, 2]);
    assert_eq!(select_numbers_from_range(3, 3), vec![0, 1, 2]);
    assert_eq!(select_numbers_from_range(7, 3), vec![0, 3, 6]);
    assert_eq!(select_numbers_from_range(7, 4), vec![0, 2, 4, 6]);
    assert_eq!(select_numbers_from_range(7, 5), vec![0, 1, 2, 3, 6]);
}

#[test]
fn overflowing_add_range_folds_into_range() {
    // 1 + 4 = 5 is not in [1, 4): it folds to 2.
    assert_eq!(2, 1usize.overflowing_add_range(4, 1..4));
    assert_eq!(1, 1usize.overflowing_add_range(9, 1..4));
    // A start outside the range counts the first step as reaching the start.
    assert_eq!(1, 114514usize.overflowing_add_range(1, 1..4));
    // The formula of the fold: (x - lo + k) % (hi - lo) + lo.
    assert_eq!(add_in_range(5, 7, 3..9), (5 - 3 + 7) % 6 + 3);
}

#[test]
fn generator_group_choose_test() {
    let range = 0..3;
    let mut gs = GeneratorGroupStrategy::RoundRobin(usize::MAX);
    assert_eq!(gs.pick(range.clone()), 0);
    assert_eq!(gs, GeneratorGroupStrategy::RoundRobin(0));
    assert_eq!(gs.pick(range.clone()), 1);
    assert_eq!(gs.pick(range.clone()), 2);
    assert_eq!(gs.pick(range.clone()), 0);
    assert_eq!(gs.pick(range.clone()), 1);
    assert_eq!(gs.pick(range.clone()), 2);
    let mut gs = GeneratorGroupStrategy::Chain;
    assert_eq!(gs.pick(range.clone()), 0);
}

#[test]
fn random_pick_stays_in_range() {
    let mut gs = GeneratorGroupStrategy::Random;
    for _ in 0..50 {
        let r = gs.pick(2..7);
        assert!((2..7).contains(&r));
    }
}
