use busy_term::events::{start_order_key, visible_commands, CommandTracker, RunningCommand};
use busy_term::whitelist::Whitelist;

fn start(session: &str, command: &str, ts: f64) -> String {
    format!(
        "{{\"type\": \"command_start\", \"session_id\": \"{session}\", \"command\": \"{command}\", \"ts\": {ts}}}"
    )
}

fn end(session: &str) -> String {
    format!("{{\"type\": \"command_end\", \"session_id\": \"{session}\"}}")
}

fn summary(commands: &[RunningCommand]) -> Vec<(String, String, f64)> {
    commands
        .iter()
        .map(|c| (c.session_id.clone(), c.command.clone(), f64::from_bits(c.started_at_bits)))
        .collect()
}

#[test]
fn start_then_end_forgets_the_command() {
    let mut tracker = CommandTracker::new();
    tracker.set_connected(true);
    tracker.apply(&start("s1", "npm run build", 100.5));
    assert_eq!(summary(&tracker.commands()), vec![("s1".into(), "npm run build".into(), 100.5)]);
    tracker.apply(&end("s1"));
    assert!(tracker.commands().is_empty());
}

#[test]
fn a_new_start_replaces_the_session_command() {
    let mut tracker = CommandTracker::new();
    tracker.apply(&start("s1", "make", 1.0));
    tracker.apply(&start("s1", "cargo test", 2.0));
    assert_eq!(summary(&tracker.commands()), vec![("s1".into(), "cargo test".into(), 2.0)]);
}

#[test]
fn commands_come_longest_running_first() {
    let mut tracker = CommandTracker::new();
    tracker.apply(&start("a", "sleep 5", 300.0));
    tracker.apply(&start("b", "vim", 100.25));
    tracker.apply(&start("c", "top", 200.0));
    tracker.apply(&start("d", "odd", -5.0));
    let order: Vec<String> = tracker.commands().into_iter().map(|c| c.session_id).collect();
    assert_eq!(order, vec!["d", "b", "c", "a"]);
}

#[test]
fn malformed_and_foreign_events_change_nothing() {
    let mut tracker = CommandTracker::new();
    tracker.apply(&start("s1", "ls", 1.0));
    tracker.apply("not json at all");
    tracker.apply("{\"type\": \"command_end\"}");
    tracker.apply("{\"type\": \"command_end\", \"session_id\": 7}");
    tracker.apply("{\"type\": \"focus\", \"session_id\": \"s1\"}");
    tracker.apply(&end("unknown-session"));
    assert_eq!(summary(&tracker.commands()), vec![("s1".into(), "ls".into(), 1.0)]);
}

#[test]
fn a_start_without_command_or_time_gets_defaults() {
    let mut tracker = CommandTracker::new();
    tracker.apply("{\"type\": \"command_start\", \"session_id\": \"s9\"}");
    assert_eq!(summary(&tracker.commands()), vec![("s9".into(), "".into(), 0.0)]);
    tracker.apply("{\"type\": \"command_start\", \"session_id\": \"s9\", \"ts\": 42}");
    assert_eq!(summary(&tracker.commands()), vec![("s9".into(), "".into(), 42.0)]);
}

#[test]
fn disconnecting_clears_the_table() {
    let mut tracker = CommandTracker::new();
    assert!(!tracker.connected());
    tracker.set_connected(true);
    tracker.apply(&start("s1", "ls", 1.0));
    assert!(tracker.connected());
    tracker.set_connected(false);
    assert!(!tracker.connected());
    assert!(tracker.commands().is_empty());
}

#[test]
fn order_key_follows_total_cmp() {
    let values = [-3.5f64, -0.0, 0.0, 1.0, 1.5, 1e9, f64::INFINITY];
    for a in values {
        for b in values {
            let by_key = start_order_key(a.to_bits()).cmp(&start_order_key(b.to_bits()));
            assert_eq!(by_key, a.total_cmp(&b), "{a} vs {b}");
        }
    }
}

#[test]
fn visible_commands_filters_young_and_whitelisted() {
    let mut tracker = CommandTracker::new();
    tracker.apply(&start("a", "npm run dev", 10.0));
    tracker.apply(&start("b", "ssh host", 20.0));
    tracker.apply(&start("c", "cargo build", 30.0));
    tracker.apply(&start("d", "make", 40.0));
    let mut list = Whitelist::load("w.json".into(), None);
    list.add("ssh".into()).unwrap();
    let commands = tracker.commands();
    let old_enough = vec![true, true, true, false];
    let shown: Vec<String> = visible_commands(&commands, &old_enough, &list)
        .into_iter()
        .map(|c| c.session_id)
        .collect();
    assert_eq!(shown, vec!["a", "c"]);
}

#[test]
fn more_entries_never_show_more_commands() {
    let mut tracker = CommandTracker::new();
    tracker.apply(&start("a", "npm run dev", 10.0));
    tracker.apply(&start("b", "ssh host", 20.0));
    tracker.apply(&start("c", "cargo build", 30.0));
    let commands = tracker.commands();
    let old_enough = vec![true, true, true];
    let mut list = Whitelist::load("w.json".into(), None);
    list.add("ssh".into()).unwrap();
    let fewer: Vec<String> = visible_commands(&commands, &old_enough, &list)
        .into_iter()
        .map(|c| c.session_id)
        .collect();
    list.add("npm".into()).unwrap();
    let more: Vec<String> = visible_commands(&commands, &old_enough, &list)
        .into_iter()
        .map(|c| c.session_id)
        .collect();
    assert_eq!(fewer, vec!["a", "c"]);
    assert_eq!(more, vec!["c"]);
}
