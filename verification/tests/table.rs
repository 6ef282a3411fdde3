use bernt::position::{Move, MoveFlag, PieceType};
use bernt::search::tt::{score, tt_size, TTEntry, TTEntryType, TT};

fn entry(hash: u64, eval: i32, depth: u8, age: u16) -> TTEntry {
    let best = Move::new(12, 28, MoveFlag::DOUBLE_PAWN, PieceType::Pawn);
    TTEntry::new(hash, eval, best, depth, age, TTEntryType::Lower)
}

#[test]
fn sizes_follow_the_megabytes() {
    assert_eq!(tt_size(1), 41666);
    assert_eq!(tt_size(16), 666666);
    let tt = TT::new_default();
    assert_eq!(tt.size(), 16);
    assert_eq!(tt.entries.len(), 666666);
    assert_eq!(tt.hashfull(), 0);
}

#[test]
fn score_is_age_plus_a_third_of_depth() {
    assert_eq!(score(0, 0), 0);
    assert_eq!(score(7, 2), 7);
    assert_eq!(score(7, 3), 8);
    assert_eq!(score(65535, 255), 65535 + 85);
}

#[test]
fn insert_then_lookup_returns_the_entry() {
    let mut tt = TT::new(1);
    let e = entry(0xdead_beef_1234_5678, -37, 5, 3);
    tt.insert(e);
    assert_eq!(tt.lookup(e.hash), Some((e.best, e.eval, e.depth, e.ty)));
    assert_eq!(tt.used, 1);
}

#[test]
fn lookup_misses_on_another_hash_of_the_same_slot() {
    let mut tt = TT::new(1);
    let n = tt.entries.len() as u64;
    let e = entry(5, 10, 4, 0);
    tt.insert(e);
    assert_eq!(tt.lookup(5 + n), None);
    assert_eq!(tt.lookup(6), None);
}

#[test]
fn an_empty_entry_is_never_found() {
    let mut tt = TT::new(1);
    tt.insert(entry(9, 1, 0, 0));
    assert_eq!(tt.lookup(9), None);
    assert_eq!(tt.lookup(0), None);
}

#[test]
fn a_worthier_entry_keeps_its_slot() {
    let mut tt = TT::new(1);
    let n = tt.entries.len() as u64;
    let deep = entry(3, 50, 30, 2);
    let shallow = entry(3 + n, 60, 1, 2);
    tt.insert(deep);
    tt.insert(shallow);
    assert_eq!(tt.lookup(3), Some((deep.best, 50, 30, TTEntryType::Lower)));
    assert_eq!(tt.lookup(3 + n), None);
    let equal = entry(3 + n, 70, 31, 2);
    tt.insert(equal);
    assert_eq!(tt.lookup(3 + n), Some((equal.best, 70, 31, TTEntryType::Lower)));
    assert_eq!(tt.used, 1);
}

#[test]
fn an_older_deep_entry_yields_to_a_younger_one() {
    let mut tt = TT::new(1);
    tt.insert(entry(3, 50, 9, 0));
    tt.insert(entry(3, 60, 1, 3));
    assert_eq!(tt.lookup(3).unwrap().1, 60);
}

#[test]
fn clear_empties_the_table() {
    let mut tt = TT::new(1);
    for h in 0..1000u64 {
        tt.insert(entry(h, 1, 1, 0));
    }
    assert_eq!(tt.used, 1000);
    assert_eq!(tt.hashfull(), 1000 * 1000 / 41666);
    tt.clear();
    assert_eq!(tt.hashfull(), 0);
    assert_eq!(tt.lookup(17), None);
    assert_eq!(tt.entries.len(), 41666);
}

#[test]
fn set_size_makes_a_new_table() {
    let mut tt = TT::new(2);
    tt.insert(entry(1, 1, 1, 0));
    tt.set_size(1);
    assert_eq!(tt.size(), 1);
    assert_eq!(tt.entries.len(), 41666);
    assert_eq!(tt.lookup(1), None);
    assert_eq!(tt.hashfull(), 0);
}

#[test]
fn every_taken_empty_slot_is_counted() {
    let mut tt = TT::new(1);
    let n = tt.entries.len();
    for _ in 0..5 {
        tt.insert(entry(9, 1, 0, 0));
    }
    assert_eq!(tt.used, 5);
    assert_eq!(tt.lookup(9), None);
    tt.insert(entry(9, 1, 2, 0));
    assert_eq!(tt.used, 6);
    tt.insert(entry(9, 1, 2, 0));
    assert_eq!(tt.used, 6);
    tt.insert(entry(9, 1, 1, 5));
    assert_eq!(tt.used, 6);
    tt.used = n;
    tt.insert(entry(10, 1, 0, 0));
    assert_eq!(tt.used, n + 1);
    assert_eq!(tt.hashfull(), (n + 1) * 1000 / n);
    tt.used = usize::MAX;
    tt.insert(entry(11, 1, 0, 0));
    assert_eq!(tt.used, usize::MAX);
    assert_eq!(tt.hashfull() as u128, usize::MAX as u128 * 1000 / n as u128);
}
