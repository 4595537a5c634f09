use drop_farm::channel::Channel;
use drop_farm::registry::{ChannelLists, TrackedChannels, MAX_TOPICS};

fn numbered(i: usize) -> Channel {
    Channel::new(&format!("{}", i), &format!("login{}", i))
}

#[test]
fn capacity_is_fifty() {
    assert_eq!(MAX_TOPICS, 50);
}

#[test]
fn new_set_is_empty() {
    let t = TrackedChannels::new();
    assert_eq!(t.len(), 0);
    assert!(t.is_empty());
    assert!(!t.is_full());
}

#[test]
fn insert_adds_a_channel_once() {
    let mut t = TrackedChannels::new();
    assert!(t.insert(Channel::new("1", "a")));
    assert!(!t.insert(Channel::new("1", "a")));
    assert_eq!(t.len(), 1);
    assert!(t.contains(&Channel::new("1", "a")));
    assert!(!t.contains(&Channel::new("1", "b")));
}

#[test]
fn insert_keeps_the_order_of_adding() {
    let mut t = TrackedChannels::new();
    t.insert(Channel::new("2", "b"));
    t.insert(Channel::new("1", "a"));
    assert_eq!(t.to_vec(), vec![Channel::new("2", "b"), Channel::new("1", "a")]);
    assert_eq!(*t.get(0), Channel::new("2", "b"));
    assert_eq!(*t.get(1), Channel::new("1", "a"));
}

#[test]
fn set_never_holds_more_than_fifty_channels() {
    let mut t = TrackedChannels::new();
    for i in 0..50 {
        assert!(t.insert(numbered(i)));
    }
    assert!(t.is_full());
    assert_eq!(t.len(), 50);
    assert!(!t.insert(numbered(50)));
    assert_eq!(t.len(), 50);
    assert!(!t.contains(&numbered(50)));
    for i in 51..200 {
        t.insert(numbered(i));
        assert!(t.len() <= 50);
    }
}

#[test]
fn room_returns_after_a_removal() {
    let mut t = TrackedChannels::new();
    for i in 0..50 {
        t.insert(numbered(i));
    }
    assert!(t.remove(&numbered(7)));
    assert_eq!(t.len(), 49);
    assert!(t.insert(numbered(50)));
    assert_eq!(t.len(), 50);
    assert!(!t.insert(numbered(51)));
}

#[test]
fn remove_takes_out_only_the_given_channel() {
    let mut t = TrackedChannels::new();
    t.insert(Channel::new("1", "a"));
    t.insert(Channel::new("2", "b"));
    t.insert(Channel::new("3", "c"));
    assert!(t.remove(&Channel::new("2", "b")));
    assert!(!t.remove(&Channel::new("2", "b")));
    assert!(!t.remove(&Channel::new("1", "other")));
    assert_eq!(t.to_vec(), vec![Channel::new("1", "a"), Channel::new("3", "c")]);
}

#[test]
fn remove_id_takes_out_every_channel_of_the_id() {
    let mut t = TrackedChannels::new();
    t.insert(Channel::new("1", "a"));
    t.insert(Channel::new("2", "b"));
    t.insert(Channel::new("1", "c"));
    assert!(t.contains_id("1"));
    assert_eq!(t.remove_id("1"), 2);
    assert!(!t.contains_id("1"));
    assert_eq!(t.to_vec(), vec![Channel::new("2", "b")]);
    assert_eq!(t.remove_id("9"), 0);
    assert_eq!(t.len(), 1);
}

#[test]
fn channel_lists_start_empty() {
    let lists = ChannelLists::new();
    assert!(lists.is_empty());
    assert!(lists.get("c1").is_none());
}

#[test]
fn channel_lists_keep_one_list_per_campaign() {
    let mut lists = ChannelLists::new();
    lists.insert("c1", vec![Channel::new("1", "a")]);
    lists.insert("c2", vec![Channel::new("2", "b"), Channel::new("3", "c")]);
    assert!(!lists.is_empty());
    assert_eq!(lists.get("c1"), Some(&vec![Channel::new("1", "a")]));
    assert_eq!(lists.get("c2"), Some(&vec![Channel::new("2", "b"), Channel::new("3", "c")]));
    assert_eq!(lists.get("c3"), None);
    lists.insert("c1", vec![Channel::new("9", "z")]);
    assert_eq!(lists.get("c1"), Some(&vec![Channel::new("9", "z")]));
    assert_eq!(lists.get("c2"), Some(&vec![Channel::new("2", "b"), Channel::new("3", "c")]));
}

#[test]
fn channel_lists_may_hold_an_empty_list() {
    let mut lists = ChannelLists::new();
    lists.insert("c1", Vec::new());
    assert!(!lists.is_empty());
    assert_eq!(lists.get("c1"), Some(&Vec::new()));
}
