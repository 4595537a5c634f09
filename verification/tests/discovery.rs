use drop_farm::channel::Channel;
use drop_farm::discovery::{
    begin_scan, filter_streams, Listing, Probe, Scan, ScanAction, DIRECTORY_LIMIT,
};
use drop_farm::registry::{ChannelLists, TrackedChannels};

fn probe(id: &str, live: bool, has_drops: bool) -> Probe {
    Probe { channel: Channel::new(id, id), live, has_drops }
}

#[test]
fn scan_asks_liveness_then_drops_then_adds() {
    let mut pool = TrackedChannels::new();
    let mut scan = Scan::new(vec![Channel::new("1", "a"), Channel::new("2", "b")], false);
    assert_eq!(scan.step(None, &mut pool), ScanAction::CheckLive(Channel::new("1", "a")));
    assert_eq!(scan.step(Some(true), &mut pool), ScanAction::CheckDrops(Channel::new("1", "a")));
    assert_eq!(pool.len(), 0);
    assert_eq!(scan.step(Some(true), &mut pool), ScanAction::CheckLive(Channel::new("2", "b")));
    assert_eq!(pool.to_vec(), vec![Channel::new("1", "a")]);
    assert_eq!(scan.judged(), 1);
    assert_eq!(scan.step(Some(false), &mut pool), ScanAction::Done);
    assert_eq!(scan.judged(), 2);
    assert_eq!(pool.to_vec(), vec![Channel::new("1", "a")]);
}

#[test]
fn scan_drops_a_live_channel_without_drops() {
    let mut pool = TrackedChannels::new();
    let mut scan = Scan::new(vec![Channel::new("1", "a")], false);
    scan.step(None, &mut pool);
    assert_eq!(scan.step(Some(true), &mut pool), ScanAction::CheckDrops(Channel::new("1", "a")));
    assert_eq!(scan.step(Some(false), &mut pool), ScanAction::Done);
    assert!(pool.is_empty());
}

#[test]
fn scan_of_a_live_listing_asks_only_for_drops() {
    let mut pool = TrackedChannels::new();
    let mut scan = Scan::new(vec![Channel::new("1", "a"), Channel::new("2", "b")], true);
    assert_eq!(scan.step(None, &mut pool), ScanAction::CheckDrops(Channel::new("1", "a")));
    assert_eq!(scan.step(Some(false), &mut pool), ScanAction::CheckDrops(Channel::new("2", "b")));
    assert_eq!(scan.step(Some(true), &mut pool), ScanAction::Done);
    assert_eq!(pool.to_vec(), vec![Channel::new("2", "b")]);
}

#[test]
fn scan_without_candidates_is_done_at_once() {
    let mut pool = TrackedChannels::new();
    let mut scan = Scan::new(Vec::new(), false);
    assert_eq!(scan.step(None, &mut pool), ScanAction::Done);
    assert_eq!(scan.step(Some(true), &mut pool), ScanAction::Done);
    assert!(pool.is_empty());
}

#[test]
fn scan_stops_asking_once_the_set_is_full() {
    let mut pool = TrackedChannels::new();
    for i in 0..49 {
        pool.insert(Channel::new(&format!("t{}", i), "x"));
    }
    let mut scan = Scan::new(vec![Channel::new("1", "a"), Channel::new("2", "b")], true);
    assert_eq!(scan.step(None, &mut pool), ScanAction::CheckDrops(Channel::new("1", "a")));
    assert_eq!(scan.step(Some(true), &mut pool), ScanAction::Done);
    assert_eq!(pool.len(), 50);
    assert_eq!(scan.judged(), 1);
    assert!(!pool.contains(&Channel::new("2", "b")));
}

#[test]
fn filter_streams_adds_live_channels_with_drops() {
    let mut pool = TrackedChannels::new();
    let probes = vec![
        probe("1", true, true),
        probe("2", false, true),
        probe("3", true, false),
        probe("4", true, true),
        probe("1", true, true),
    ];
    filter_streams(&mut pool, &probes);
    assert_eq!(pool.to_vec(), vec![Channel::new("1", "1"), Channel::new("4", "4")]);
}

#[test]
fn filter_streams_stops_at_capacity() {
    let mut pool = TrackedChannels::new();
    let mut probes = Vec::new();
    for i in 0..60 {
        probes.push(probe(&format!("{}", i), true, true));
    }
    filter_streams(&mut pool, &probes);
    assert_eq!(pool.len(), 50);
    assert!(pool.contains(&Channel::new("49", "49")));
    assert!(!pool.contains(&Channel::new("50", "50")));
}

#[test]
fn filter_streams_keeps_what_was_there() {
    let mut pool = TrackedChannels::new();
    pool.insert(Channel::new("9", "z"));
    filter_streams(&mut pool, &vec![probe("1", true, true)]);
    assert_eq!(pool.to_vec(), vec![Channel::new("9", "z"), Channel::new("1", "1")]);
    filter_streams(&mut pool, &Vec::new());
    assert_eq!(pool.len(), 2);
}

#[test]
fn late_campaign_finds_no_room() {
    let mut pool = TrackedChannels::new();
    let mut first = Vec::new();
    for i in 0..50 {
        first.push(probe(&format!("a{}", i), true, true));
    }
    filter_streams(&mut pool, &first);
    filter_streams(&mut pool, &vec![probe("late", true, true)]);
    assert_eq!(pool.len(), 50);
    assert!(!pool.contains(&Channel::new("late", "late")));
}

#[test]
fn directory_page_holds_thirty_channels() {
    assert_eq!(DIRECTORY_LIMIT, 30);
}

#[test]
fn allow_list_is_recorded_whole_and_the_directories_stay() {
    let mut allow = ChannelLists::new();
    let mut directories = ChannelLists::new();
    let mut pool = TrackedChannels::new();
    let list = vec![Channel::new("1", "a"), Channel::new("2", "b")];
    let mut scan = begin_scan(&mut allow, &mut directories, "c1", Listing::AllowList(list.clone()), false);
    assert_eq!(allow.get("c1"), Some(&list));
    assert!(directories.is_empty());
    assert_eq!(scan.step(None, &mut pool), ScanAction::CheckLive(Channel::new("1", "a")));
    assert_eq!(scan.step(Some(false), &mut pool), ScanAction::CheckLive(Channel::new("2", "b")));
    assert_eq!(scan.step(Some(false), &mut pool), ScanAction::Done);
    assert!(pool.is_empty());
    assert_eq!(allow.get("c1"), Some(&list));
}

#[test]
fn directory_is_recorded_whole_and_the_allow_lists_stay() {
    let mut allow = ChannelLists::new();
    let mut directories = ChannelLists::new();
    let mut pool = TrackedChannels::new();
    let list = vec![Channel::new("1", "a"), Channel::new("2", "b")];
    let mut scan = begin_scan(&mut allow, &mut directories, "c1", Listing::Directory(list.clone()), false);
    assert_eq!(directories.get("c1"), Some(&list));
    assert!(allow.is_empty());
    assert_eq!(scan.step(None, &mut pool), ScanAction::CheckLive(Channel::new("1", "a")));
}

#[test]
fn only_a_directory_in_the_refill_counts_as_live() {
    let mut allow = ChannelLists::new();
    let mut directories = ChannelLists::new();
    let mut pool = TrackedChannels::new();
    let list = vec![Channel::new("1", "a")];
    let mut refilled = begin_scan(&mut allow, &mut directories, "c1", Listing::Directory(list.clone()), true);
    assert_eq!(refilled.step(None, &mut pool), ScanAction::CheckDrops(Channel::new("1", "a")));
    let mut listed = begin_scan(&mut allow, &mut directories, "c2", Listing::AllowList(list.clone()), true);
    assert_eq!(listed.step(None, &mut pool), ScanAction::CheckLive(Channel::new("1", "a")));
    assert_eq!(allow.get("c2"), Some(&list));
    assert_eq!(allow.get("c1"), None);
    assert_eq!(directories.get("c1"), Some(&list));
    assert_eq!(directories.get("c2"), None);
}
