use drop_farm::claimed::ClaimedDrops;
use drop_farm::tracker::{
    DropProgress, DropTracker, TrackerAction, FIRST_ESTIMATE, POLL_WAIT, RETRY_WAIT,
    STALL_THRESHOLD, TOLERANCE,
};

fn progress(id: &str, current: u64, required: u64) -> DropProgress {
    DropProgress { drop_id: id.to_string(), current_minutes: current, required_minutes: required }
}

fn tracker(deadline: u64, last: &str, misses: u64) -> DropTracker {
    DropTracker { deadline, last_drop: last.to_string(), misses }
}

fn track(claim: Option<&str>, watched: u64, required: u64) -> TrackerAction {
    TrackerAction::Track { claim: claim.map(|s| s.to_string()), watched, required, wait_secs: 30 }
}

#[test]
fn tracker_constants() {
    assert_eq!(STALL_THRESHOLD, 3);
    assert_eq!(RETRY_WAIT, 5);
    assert_eq!(POLL_WAIT, 30);
    assert_eq!(TOLERANCE, 300);
    assert_eq!(FIRST_ESTIMATE, 3600);
}

#[test]
fn new_tracker_expects_the_first_drop_in_an_hour() {
    let t = DropTracker::new(1000);
    assert_eq!(t, tracker(4600, "", 0));
}

#[test]
fn deadline_is_now_plus_the_minutes_still_needed() {
    let cache = ClaimedDrops::new();
    let mut t = tracker(1100, "d1", 0);
    let action = t.poll(&progress("d1", 10, 60), &cache, Some("acct"), 1000);
    assert_eq!(action, track(None, 10, 60));
    assert_eq!(t.deadline, 1000 + 50 * 60);
    assert_eq!(t.last_drop, "d1");
}

#[test]
fn remaining_time_is_never_negative() {
    let cache = ClaimedDrops::new();
    let mut t = tracker(1100, "d1", 0);
    t.poll(&progress("d1", 60, 60), &cache, Some("acct"), 1000);
    assert_eq!(t.deadline, 1000);
    let mut u = tracker(1100, "d1", 0);
    u.poll(&progress("d1", 75, 60), &cache, Some("acct"), 1000);
    assert_eq!(u.deadline, 1000);
}

#[test]
fn far_deadline_is_kept() {
    let cache = ClaimedDrops::new();
    let mut t = tracker(1301, "d1", 0);
    let action = t.poll(&progress("d1", 10, 60), &cache, Some("acct"), 1000);
    assert_eq!(action, track(None, 10, 60));
    assert_eq!(t.deadline, 1301);
}

#[test]
fn deadline_at_the_edge_of_the_tolerance_is_estimated_anew() {
    let cache = ClaimedDrops::new();
    let mut t = tracker(1300, "d1", 0);
    t.poll(&progress("d1", 10, 60), &cache, Some("acct"), 1000);
    assert_eq!(t.deadline, 4000);
}

#[test]
fn passed_deadline_claims_the_last_drop() {
    let cache = ClaimedDrops::new();
    let mut t = tracker(1000, "d1", 0);
    let action = t.poll(&progress("d1", 59, 60), &cache, Some("acct"), 1000);
    assert_eq!(action, track(Some("d1"), 59, 60));
    assert_eq!(t.deadline, 1060);
    assert_eq!(t.last_drop, "d1");
}

#[test]
fn new_drop_claims_the_one_before_it() {
    let cache = ClaimedDrops::new();
    let mut t = tracker(9000, "d1", 0);
    let action = t.poll(&progress("d2", 0, 30), &cache, Some("acct"), 1000);
    assert_eq!(action, track(Some("d1"), 0, 30));
    assert_eq!(t.last_drop, "d2");
    assert_eq!(t.deadline, 1000 + 30 * 60);
}

#[test]
fn reported_drop_in_the_cache_is_skipped() {
    let mut cache = ClaimedDrops::new();
    cache.record("acct", "d2");
    let mut t = tracker(9000, "d1", 0);
    let action = t.poll(&progress("d2", 5, 30), &cache, Some("acct"), 1000);
    assert_eq!(action, track(None, 5, 30));
    assert_eq!(t.last_drop, "d1");
    assert_eq!(t.deadline, 9000);
}

#[test]
fn cache_of_another_account_does_not_count() {
    let mut cache = ClaimedDrops::new();
    cache.record("other", "d2");
    let mut t = tracker(9000, "d1", 0);
    let action = t.poll(&progress("d2", 5, 30), &cache, Some("acct"), 1000);
    assert_eq!(action, track(Some("d1"), 5, 30));
}

#[test]
fn cache_reloaded_after_restart_keeps_a_drop_from_being_claimed_again() {
    let mut cache = ClaimedDrops::new();
    cache.record("acct", "d1");
    let text = cache.to_json().unwrap();
    let reloaded = ClaimedDrops::from_json(&text).unwrap();
    let mut t = DropTracker::new(0);
    let first = t.poll(&progress("d1", 60, 60), &reloaded, Some("acct"), 10);
    assert_eq!(first, track(None, 60, 60));
    let second = t.poll(&progress("d1", 60, 60), &reloaded, Some("acct"), 40);
    assert_eq!(second, track(None, 60, 60));
}

#[test]
fn first_report_is_adopted_without_a_claim() {
    let cache = ClaimedDrops::new();
    let mut t = DropTracker::new(1000);
    let action = t.poll(&progress("d1", 0, 15), &cache, Some("acct"), 1000);
    assert_eq!(action, track(None, 0, 15));
    assert_eq!(t.last_drop, "d1");
    assert_eq!(t.deadline, 4600);
}

#[test]
fn three_misses_in_a_row_stall_once() {
    let cache = ClaimedDrops::new();
    let mut t = tracker(9000, "d1", 0);
    assert_eq!(t.poll(&progress("", 0, 0), &cache, Some("acct"), 1), TrackerAction::Retry { wait_secs: 5 });
    assert_eq!(t.misses, 1);
    assert_eq!(t.poll(&progress("", 0, 0), &cache, Some("acct"), 2), TrackerAction::Retry { wait_secs: 5 });
    assert_eq!(t.misses, 2);
    assert_eq!(t.poll(&progress("", 0, 0), &cache, Some("acct"), 3), TrackerAction::Stall);
    assert_eq!(t.misses, 0);
    assert_eq!(t.poll(&progress("", 0, 0), &cache, Some("acct"), 4), TrackerAction::Retry { wait_secs: 5 });
    assert_eq!(t, tracker(9000, "d1", 1));
}

#[test]
fn miss_never_claims_even_when_the_deadline_has_passed() {
    let cache = ClaimedDrops::new();
    let mut t = tracker(10, "d1", 0);
    assert_eq!(t.poll(&progress("", 0, 0), &cache, Some("acct"), 500), TrackerAction::Retry { wait_secs: 5 });
    assert_eq!(t.deadline, 10);
    assert_eq!(t.last_drop, "d1");
}

#[test]
fn progress_starts_the_count_of_misses_afresh() {
    let cache = ClaimedDrops::new();
    let mut t = tracker(9000, "d1", 2);
    t.poll(&progress("d1", 1, 60), &cache, Some("acct"), 1);
    assert_eq!(t.misses, 0);
    assert_eq!(t.poll(&progress("", 0, 0), &cache, Some("acct"), 2), TrackerAction::Retry { wait_secs: 5 });
}

#[test]
fn new_target_starts_the_count_of_misses_afresh() {
    let cache = ClaimedDrops::new();
    let mut t = tracker(9000, "d1", 0);
    t.poll(&progress("", 0, 0), &cache, Some("acct"), 1);
    t.poll(&progress("", 0, 0), &cache, Some("acct"), 2);
    t.retarget();
    assert_eq!(t, tracker(9000, "d1", 0));
    assert_eq!(t.poll(&progress("", 0, 0), &cache, Some("acct"), 3), TrackerAction::Retry { wait_secs: 5 });
}

#[test]
fn account_without_an_id_never_claims() {
    let cache = ClaimedDrops::new();
    let mut t = tracker(1000, "d1", 0);
    let action = t.poll(&progress("d2", 0, 30), &cache, None, 2000);
    assert_eq!(action, track(None, 0, 30));
    assert_eq!(t.last_drop, "d1");
    assert_eq!(t.deadline, 2000 + 30 * 60);
}

#[test]
fn account_without_an_id_adopts_the_first_drop() {
    let cache = ClaimedDrops::new();
    let mut t = DropTracker::new(0);
    assert_eq!(t.poll(&progress("d1", 1, 2), &cache, None, 10), track(None, 1, 2));
    assert_eq!(t.last_drop, "d1");
}
