use drop_farm::campaign::{
    campaigns_of_game, games_on_offer, Campaign, ControllerAction, WorkingSet, IDLE_WAIT,
};
use drop_farm::claimed::ClaimedDrops;

fn campaign(id: &str, game: &str, status: &str) -> Campaign {
    Campaign {
        id: id.to_string(),
        game_id: game.to_string(),
        game_name: format!("Game {}", game),
        status: status.to_string(),
    }
}

fn strings(items: &[&str]) -> Vec<String> {
    items.iter().map(|s| s.to_string()).collect()
}

#[test]
fn expired_campaigns_are_recognised_by_their_status() {
    assert!(campaign("c", "g", "EXPIRED").is_expired());
    assert!(!campaign("c", "g", "ACTIVE").is_expired());
    assert!(!campaign("c", "g", "expired").is_expired());
    assert!(!campaign("c", "g", "").is_expired());
}

#[test]
fn games_are_offered_once_in_order_of_first_mention() {
    let listing = vec![
        campaign("c1", "g2", "ACTIVE"),
        campaign("c2", "g1", "ACTIVE"),
        campaign("c3", "g2", "UPCOMING"),
        campaign("c4", "g3", "EXPIRED"),
        campaign("c5", "g1", "EXPIRED"),
    ];
    assert_eq!(games_on_offer(&listing), strings(&["g2", "g1"]));
    assert!(games_on_offer(&Vec::new()).is_empty());
}

#[test]
fn campaigns_of_a_game_keep_the_order_and_skip_expired_ones() {
    let listing = vec![
        campaign("c1", "g2", "ACTIVE"),
        campaign("c2", "g1", "ACTIVE"),
        campaign("c3", "g2", "EXPIRED"),
        campaign("c4", "g2", "ACTIVE"),
    ];
    assert_eq!(
        campaigns_of_game(&listing, "g2"),
        vec![campaign("c1", "g2", "ACTIVE"), campaign("c4", "g2", "ACTIVE")]
    );
    assert!(campaigns_of_game(&listing, "g9").is_empty());
}

#[test]
fn campaign_clone_is_equal() {
    let c = campaign("c1", "g1", "ACTIVE");
    assert_eq!(c.clone(), c);
}

#[test]
fn working_set_starts_without_the_claimed_drops() {
    let mut cache = ClaimedDrops::new();
    cache.record("acct", "d1");
    let ws = WorkingSet::start(&strings(&["d1", "d2"]), &cache);
    assert_eq!(ws.to_vec(), strings(&["d2"]));
    assert_eq!(ws.len(), 1);
}

#[test]
fn claimed_event_for_the_last_drop_moves_on_to_the_next_campaign() {
    let mut cache = ClaimedDrops::new();
    cache.record("acct", "d1");
    let mut ws = WorkingSet::start(&strings(&["d1", "d2"]), &cache);
    assert_eq!(ws.on_claimed("d2"), ControllerAction::Advance);
    assert_eq!(ws.len(), 0);
}

#[test]
fn claims_of_any_account_prune_the_working_set() {
    let mut cache = ClaimedDrops::new();
    cache.record("a", "d1");
    cache.record("b", "d3");
    let ws = WorkingSet::start(&strings(&["d1", "d2", "d3", "d4"]), &cache);
    assert_eq!(ws.to_vec(), strings(&["d2", "d4"]));
}

#[test]
fn claimed_event_removes_the_drop_and_waits_for_the_rest() {
    let cache = ClaimedDrops::new();
    let mut ws = WorkingSet::start(&strings(&["d1", "d2", "d3"]), &cache);
    assert_eq!(ws.on_claimed("d2"), ControllerAction::Wait);
    assert_eq!(ws.to_vec(), strings(&["d1", "d3"]));
    assert_eq!(ws.on_claimed("d1"), ControllerAction::Wait);
    assert_eq!(ws.on_claimed("d3"), ControllerAction::Advance);
}

#[test]
fn event_for_a_drop_of_another_campaign_changes_nothing() {
    let cache = ClaimedDrops::new();
    let mut ws = WorkingSet::start(&strings(&["d1"]), &cache);
    assert_eq!(ws.on_claimed("x"), ControllerAction::Wait);
    assert_eq!(ws.to_vec(), strings(&["d1"]));
}

#[test]
fn empty_event_is_idle() {
    let cache = ClaimedDrops::new();
    let mut ws = WorkingSet::start(&strings(&["d1"]), &cache);
    assert_eq!(IDLE_WAIT, 10);
    assert_eq!(ws.on_claimed(""), ControllerAction::Idle { wait_secs: 10 });
    assert_eq!(ws.to_vec(), strings(&["d1"]));
    let mut done = WorkingSet::start(&Vec::new(), &cache);
    assert_eq!(done.on_claimed(""), ControllerAction::Idle { wait_secs: 10 });
}

#[test]
fn campaign_without_open_drops_moves_on_at_the_next_event() {
    let mut cache = ClaimedDrops::new();
    cache.record("acct", "d1");
    let mut ws = WorkingSet::start(&strings(&["d1"]), &cache);
    assert_eq!(ws.len(), 0);
    assert_eq!(ws.on_claimed("other"), ControllerAction::Advance);
}

#[test]
fn event_removes_only_the_first_of_equal_drops() {
    let cache = ClaimedDrops::new();
    let mut ws = WorkingSet::start(&strings(&["d1", "d2", "d1"]), &cache);
    assert_eq!(ws.on_claimed("d1"), ControllerAction::Wait);
    assert_eq!(ws.to_vec(), strings(&["d2", "d1"]));
}
