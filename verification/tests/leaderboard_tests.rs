use tileworld::leaderboard::{record, timer_parts, LeaderEntry};

fn entry(name: &str, millis: u64) -> LeaderEntry {
    LeaderEntry { name: name.to_string(), millis }
}

#[test]
fn record_keeps_fastest_first() {
    let mut board: Vec<LeaderEntry> = Vec::new();
    record(&mut board, entry("late", 9200));
    record(&mut board, entry("fast", 3100));
    record(&mut board, entry("mid", 5000));
    let order: Vec<&str> = board.iter().map(|e| e.name.as_str()).collect();
    assert_eq!(order, vec!["fast", "mid", "late"]);
    let times: Vec<u64> = board.iter().map(|e| e.millis).collect();
    assert_eq!(times, vec![3100, 5000, 9200]);
}

#[test]
fn record_equal_times_keep_arrival_order() {
    let mut board: Vec<LeaderEntry> = Vec::new();
    record(&mut board, entry("first", 4000));
    record(&mut board, entry("second", 4000));
    record(&mut board, entry("earlier", 1000));
    let order: Vec<&str> = board.iter().map(|e| e.name.as_str()).collect();
    assert_eq!(order, vec!["earlier", "first", "second"]);
}

#[test]
fn timer_parts_splits_milliseconds() {
    assert_eq!(timer_parts(0), (0, 0));
    assert_eq!(timer_parts(999), (0, 999));
    assert_eq!(timer_parts(1000), (1, 0));
    assert_eq!(timer_parts(83456), (83, 456));
}
