use aush::history::{timestamp_from_reading, ClockReading, Timestamp};
use aush::history::{History, HistoryConfig};

fn create_test_history() -> History {
    History::with_file("/tmp/aush-test-history", HistoryConfig::default())
}

#[test]
fn test_add_command() {
    let mut history = create_test_history();
    history.add("echo hello".to_string());
    assert_eq!(history.len(), 1);
    assert_eq!(history.get(0).unwrap().command, "echo hello");
}

#[test]
fn test_consecutive_duplicate_prevention() {
    let mut history = create_test_history();
    history.add("ls".to_string());
    history.add("ls".to_string());
    assert_eq!(history.len(), 1);
}

#[test]
fn test_non_consecutive_duplicates_allowed_by_default() {
    let mut history = create_test_history();
    history.add("ls".to_string());
    history.add("pwd".to_string());
    history.add("ls".to_string());
    assert_eq!(history.len(), 3);
}

#[test]
fn test_deduplicate_all() {
    let mut history = create_test_history();
    let mut config = HistoryConfig::default();
    config.deduplicate_all = true;
    history.set_config(config);

    history.add("ls".to_string());
    history.add("pwd".to_string());
    history.add("ls".to_string());

    // Should only have 2 entries: pwd and ls (moved to end)
    assert_eq!(history.len(), 2);
    assert_eq!(history.get(0).unwrap().command, "pwd");
    assert_eq!(history.get(1).unwrap().command, "ls");
}

#[test]
fn test_ignore_space() {
    let mut history = create_test_history();
    history.add(" secret command".to_string());
    assert_eq!(history.len(), 0);
}

#[test]
fn test_ignore_patterns() {
    let mut history = create_test_history();
    let mut config = HistoryConfig::default();
    config.ignore_patterns = vec!["history".to_string(), "exit".to_string()];
    history.set_config(config);

    history.add("history".to_string());
    history.add("exit".to_string());
    history.add("ls".to_string());

    assert_eq!(history.len(), 1);
    assert_eq!(history.get(0).unwrap().command, "ls");
}

#[test]
fn test_max_size_enforcement() {
    let mut history = create_test_history();
    let mut config = HistoryConfig::default();
    config.max_size = 5;
    history.set_config(config);

    for i in 0..10 {
        history.add(format!("command {}", i));
    }

    assert_eq!(history.len(), 5);
    assert_eq!(history.get(0).unwrap().command, "command 5");
    assert_eq!(history.get(4).unwrap().command, "command 9");
}

#[test]
fn test_fuzzy_search() {
    let mut history = create_test_history();
    history.add("git status".to_string());
    history.add("git commit -m 'test'".to_string());
    history.add("git push origin main".to_string());
    history.add("echo hello".to_string());

    let results = history.search("git", 10);
    assert_eq!(results.len(), 3);

    // All results should contain "git"
    for result in &results {
        assert!(result.entry.command.contains("git"));
    }

    let results = history.search("commit", 10);
    assert_eq!(results.len(), 1);
    assert_eq!(results[0].entry.command, "git commit -m 'test'");
}

#[test]
fn test_fuzzy_search_ranking() {
    let mut history = create_test_history();
    history.add("echo test".to_string());
    history.add("test".to_string());
    history.add("testing 123".to_string());

    let results = history.search("test", 10);

    // All should match
    assert_eq!(results.len(), 3);

    // "test" exact match should be in results
    assert!(results.iter().any(|r| r.entry.command == "test"));

    // Exact match should have a positive score
    let exact_match = results.iter().find(|r| r.entry.command == "test").unwrap();
    assert!(exact_match.score > 0);
}

#[test]
fn test_substring_search() {
    let mut history = create_test_history();
    history.add("cargo build".to_string());
    history.add("cargo test".to_string());
    history.add("cargo run".to_string());
    history.add("echo test".to_string());

    let results = history.search_substring("cargo", 10);
    assert_eq!(results.len(), 3);

    // Results should be in reverse order (most recent first)
    assert_eq!(results[0].command, "cargo run");
    assert_eq!(results[1].command, "cargo test");
    assert_eq!(results[2].command, "cargo build");
}

#[test]
fn test_last_n() {
    let mut history = create_test_history();
    for i in 0..10 {
        history.add(format!("command {}", i));
    }

    let last_5 = history.last_n(5);
    assert_eq!(last_5.len(), 5);
    assert_eq!(last_5[0].command, "command 5");
    assert_eq!(last_5[4].command, "command 9");

    // Request more than available
    let last_20 = history.last_n(20);
    assert_eq!(last_20.len(), 10);
}

#[test]
fn test_clear() {
    let mut history = create_test_history();
    history.add("test 1".to_string());
    history.add("test 2".to_string());

    assert_eq!(history.len(), 2);

    history.clear();
    assert_eq!(history.len(), 0);
}

#[test]
fn test_empty_command_ignored() {
    let mut history = create_test_history();
    history.add("".to_string());
    history.add("   ".to_string());

    assert_eq!(history.len(), 0);
}

#[test]
fn add_returns_the_recorded_entry() {
    let mut history = create_test_history();
    let before = chrono::Utc::now();
    let entry = history.add("make".to_string()).unwrap();
    let after = chrono::Utc::now();
    assert_eq!(entry.command, "make");
    let t = (entry.timestamp.secs, entry.timestamp.nanos);
    assert!(t >= (before.timestamp(), before.timestamp_subsec_nanos()));
    assert!(t <= (after.timestamp(), after.timestamp_subsec_nanos()));
    assert!(history.add("make".to_string()).is_none());
}

#[test]
fn search_limits_results_and_keeps_best() {
    let mut history = create_test_history();
    history.add("git status".to_string());
    history.add("git stash".to_string());
    history.add("git st".to_string());
    let results = history.search("gst", 2);
    assert_eq!(results.len(), 2);
    assert!(results[0].score >= results[1].score);
}

#[test]
fn history_file_is_kept() {
    let history = create_test_history();
    assert_eq!(history.history_file(), "/tmp/aush-test-history");
}

#[test]
fn history_file_in_home_or_current_directory() {
    assert_eq!(History::history_file_in(Some("/home/u".to_string())), "/home/u/.aush_history");
    assert_eq!(History::history_file_in(Some("/home/u/".to_string())), "/home/u/.aush_history");
    assert_eq!(History::history_file_in(None), "./.aush_history");
}

#[test]
fn clock_readings_before_and_after_the_epoch() {
    let t = timestamp_from_reading(ClockReading { after_epoch: true, secs: 5, nanos: 7 });
    assert_eq!(t, Timestamp { secs: 5, nanos: 7 });
    let t = timestamp_from_reading(ClockReading { after_epoch: false, secs: 2, nanos: 0 });
    assert_eq!(t, Timestamp { secs: -2, nanos: 0 });
    let t = timestamp_from_reading(ClockReading { after_epoch: false, secs: 2, nanos: 300 });
    assert_eq!(t, Timestamp { secs: -3, nanos: 999_999_700 });
    let t = timestamp_from_reading(ClockReading { after_epoch: true, secs: u64::MAX, nanos: 0 });
    assert_eq!(t.secs, i64::MAX);
}
