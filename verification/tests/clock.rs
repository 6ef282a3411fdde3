use bernt::position::PieceColor;
use bernt::search::timeman::{clamp_millis, expired, limit, TimeManager, NO_LIMIT};
use bernt::SearchOptions;

#[test]
fn the_defaults_are_without_limits() {
    let options = SearchOptions::default();
    assert_eq!(options.wtime, u64::MAX);
    assert_eq!(options.btime, u64::MAX);
    assert_eq!((options.winc, options.binc), (0, 0));
    assert_eq!(options.depth, 255);
    assert!(options.info);
    assert_eq!(NO_LIMIT, u64::MAX);
    let timeman = TimeManager::new(&options, PieceColor::White);
    assert_eq!((timeman.hard, timeman.soft), (None, None));
    assert!(!timeman.hard_stop());
    assert!(!timeman.soft_stop());
}

#[test]
fn limits_follow_the_clock_and_the_increment() {
    assert_eq!(limit(100, 0, 331), 30);
    assert_eq!(limit(100, 0, 5346), 1);
    assert_eq!(limit(60000, 1000, 331), 18574);
    assert_eq!(limit(60000, 1000, 5346), 1853);
    assert_eq!(limit(10, 0, 331), 0);
    assert_eq!(limit(25, 0, 331), 0);
    assert_eq!(limit(26, 1000, 331), 1);
    assert_eq!(limit(1000, 5000, 331), 975);
    assert_eq!(limit(u64::MAX - 1, u64::MAX, 331), 13835058055282163711);
    assert_eq!(limit(u64::MAX - 1, 0, 1), u64::MAX - 26);
}

#[test]
fn each_side_has_its_own_clock() {
    let options = SearchOptions { wtime: 100, btime: 60000, winc: 0, binc: 1000, ..SearchOptions::default() };
    let white = TimeManager::new(&options, PieceColor::White);
    let black = TimeManager::new(&options, PieceColor::Black);
    assert_eq!((white.hard, white.soft), (Some(30), Some(1)));
    assert_eq!((black.hard, black.soft), (Some(18574), Some(1853)));
    assert!(!black.hard_stop());
}

#[test]
fn a_limit_has_passed_once_more_time_has() {
    assert!(!expired(0, None));
    assert!(!expired(u64::MAX, None));
    assert!(!expired(30, Some(30)));
    assert!(expired(31, Some(30)));
    assert!(expired(1, Some(0)));
    let spent = TimeManager::new(&SearchOptions { wtime: 0, ..SearchOptions::default() }, PieceColor::White);
    assert_eq!(spent.hard, Some(0));
    while spent.elapsed() < 2 {}
    assert!(spent.hard_stop());
    assert!(spent.soft_stop());
}

#[test]
fn counts_of_milliseconds_stop_at_64_bits() {
    assert_eq!(clamp_millis(0), 0);
    assert_eq!(clamp_millis(1500), 1500);
    assert_eq!(clamp_millis(u64::MAX as u128), u64::MAX);
    assert_eq!(clamp_millis(u64::MAX as u128 + 1), u64::MAX);
    assert_eq!(clamp_millis(u128::MAX), u64::MAX);
}

#[test]
fn the_greatest_limit_never_passes() {
    let mut manager = TimeManager::unlimited();
    assert_eq!((manager.hard, manager.soft), (None, None));
    manager.hard = Some(u64::MAX);
    manager.soft = Some(u64::MAX);
    while manager.elapsed() < 1 {}
    assert!(!manager.hard_stop());
    assert!(!manager.soft_stop());
}

#[test]
fn an_increment_above_the_clock_takes_from_the_limit() {
    assert_eq!(limit(1000, 1400, 331), 930);
    assert_eq!(limit(1000, 1400, 5346), 975);
    assert_eq!(limit(1000, 1200, 5346), 897);
    assert_eq!(limit(100, 1000, 100), 0);
    assert_eq!(limit(0, 10, 100), 0);
    assert_eq!(limit(500, 600, 50), 250);
    let options = SearchOptions { wtime: 1000, winc: 1400, ..SearchOptions::default() };
    let white = TimeManager::new(&options, PieceColor::White);
    assert_eq!((white.hard, white.soft), (Some(930), Some(975)));
}
