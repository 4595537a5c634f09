//! The shared registry: the bounded set of channels that are eligible for
//! selection, and the channel lists that campaigns were found to have.

use vstd::prelude::*;
use crate::channel::{
    Channel, ChannelView, channel_views, channels_contain, channels_copy, channels_have_id,
    channels_without_id, has_id,
    lemma_filter_distinct, lemma_filter_other_id, other_id,
};

verus! {

/// How many channels can be tracked at once.
pub const MAX_TOPICS: usize = 50;

/// Seconds between two rounds of the refill loop and of the scheduler, and
/// before the feed is connected again.
pub const UPDATE_TIME: u64 = 15;

/// A run of channels without the channel `c`, which occurs in it at most once.
pub open spec fn without(s: Seq<ChannelView>, c: ChannelView) -> Seq<ChannelView> {
    if s.contains(c) {
        s.remove(s.index_of(c))
    } else {
        s
    }
}

/// A run of channels with the channel `c` added, unless it is there already
/// or the run has reached the capacity.
pub open spec fn inserted(s: Seq<ChannelView>, c: ChannelView) -> Seq<ChannelView> {
    if !s.contains(c) && s.len() < MAX_TOPICS {
        s.push(c)
    } else {
        s
    }
}

/// A change to the set of eligible channels.
pub enum Mutation {
    /// Discovery adds a channel.
    Insert(ChannelView),
    /// A channel is taken out.
    Remove(ChannelView),
    /// The presence feed takes out the channels of an id.
    RemoveId(Seq<char>),
}

/// The set after a change.
pub open spec fn mutated(s: Seq<ChannelView>, m: Mutation) -> Seq<ChannelView> {
    match m {
        Mutation::Insert(c) => inserted(s, c),
        Mutation::Remove(c) => without(s, c),
        Mutation::RemoveId(id) => s.filter(other_id(id)),
    }
}

/// The set after a run of changes, in order.
pub open spec fn mutated_all(s: Seq<ChannelView>, ms: Seq<Mutation>) -> Seq<ChannelView>
    decreases ms.len(),
{
    if ms.len() == 0 {
        s
    } else {
        mutated(mutated_all(s, ms.drop_last()), ms.last())
    }
}

/// Whatever the changes and their order, the set holds no channel twice and
/// never more than `MAX_TOPICS` channels.
pub proof fn lemma_capacity_holds(s: Seq<ChannelView>, ms: Seq<Mutation>)
    requires
        s.no_duplicates(),
        s.len() <= MAX_TOPICS,
    ensures
        mutated_all(s, ms).no_duplicates(),
        mutated_all(s, ms).len() <= MAX_TOPICS,
    decreases ms.len(),
{
    if ms.len() > 0 {
        lemma_capacity_holds(s, ms.drop_last());
        let before = mutated_all(s, ms.drop_last());
        match ms.last() {
            Mutation::Insert(c) => {},
            Mutation::Remove(c) => {
                if before.contains(c) {
                    let at = before.index_of(c);
                    let after = before.remove(at);
                    assert forall|i: int, j: int|
                        0 <= i < after.len() && 0 <= j < after.len() && i != j implies after[i]
                        != after[j] by {
                        let a = if i < at { i } else { i + 1 };
                        let b = if j < at { j } else { j + 1 };
                        assert(after[i] == before[a]);
                        assert(after[j] == before[b]);
                    }
                }
            },
            Mutation::RemoveId(id) => {
                lemma_filter_distinct(before, other_id(id));
            },
        }
    }
}

/// The channels currently eligible for selection: a set, kept in the order
/// in which the channels were added, of at most `MAX_TOPICS` channels.
pub struct TrackedChannels {
    items: Vec<Channel>,
}

impl View for TrackedChannels {
    type V = Seq<ChannelView>;

    closed spec fn view(&self) -> Seq<ChannelView> {
        channel_views(self.items@)
    }
}

impl TrackedChannels {
    /// No channel occurs twice, and there are at most `MAX_TOPICS` of them.
    pub open spec fn wf(&self) -> bool {
        &&& self@.no_duplicates()
        &&& self@.len() <= MAX_TOPICS
    }

    /// The tracked channels as a set.
    pub open spec fn members(&self) -> Set<ChannelView> {
        self@.to_set()
    }

    /// The empty set.
    pub fn new() -> (t: TrackedChannels)
        ensures
            t@ == Seq::<ChannelView>::empty(),
            t.wf(),
    {
        let t = TrackedChannels { items: Vec::new() };
        assert(t@ =~= Seq::<ChannelView>::empty());
        t
    }

    /// How many channels are tracked.
    pub fn len(&self) -> (n: usize)
        ensures
            n == self@.len(),
    {
        self.items.len()
    }

    /// Whether no channel is tracked.
    pub fn is_empty(&self) -> (b: bool)
        ensures
            b == (self@.len() == 0),
    {
        self.items.len() == 0
    }

    /// Whether the set has no room left.
    pub fn is_full(&self) -> (b: bool)
        ensures
            b == (self@.len() >= MAX_TOPICS),
    {
        self.items.len() >= MAX_TOPICS
    }

    /// The `i`-th channel, in the order of adding.
    pub fn get(&self, i: usize) -> (c: &Channel)
        requires
            i < self@.len(),
        ensures
            c@ == self@[i as int],
    {
        &self.items[i]
    }

    /// Whether the channel is tracked.
    pub fn contains(&self, c: &Channel) -> (b: bool)
        ensures
            b == self@.contains(c@),
    {
        channels_contain(&self.items, c)
    }

    /// Whether a channel of this id is tracked.
    pub fn contains_id(&self, id: &str) -> (b: bool)
        ensures
            b == has_id(self@, id@),
    {
        channels_have_id(&self.items, &id.to_owned())
    }

    /// Adds a channel, unless it is tracked already or the set is full.
    /// Returns whether the channel was added.
    pub fn insert(&mut self, c: Channel) -> (added: bool)
        requires
            old(self).wf(),
        ensures
            final(self).wf(),
            final(self)@ == inserted(old(self)@, c@),
            added == (!old(self)@.contains(c@) && old(self)@.len() < MAX_TOPICS),
    {
        if self.items.len() >= MAX_TOPICS || self.contains(&c) {
            return false;
        }
        let ghost before = self@;
        self.items.push(c);
        assert(self@ =~= before.push(c@));
        true
    }

    /// Removes the channel, if it is tracked. Returns whether it was.
    pub fn remove(&mut self, c: &Channel) -> (removed: bool)
        requires
            old(self).wf(),
        ensures
            final(self).wf(),
            removed == old(self)@.contains(c@),
            final(self)@ == without(old(self)@, c@),
            !final(self)@.contains(c@),
    {
        let ghost before = self@;
        let mut i: usize = 0;
        while i < self.items.len()
            invariant
                i <= self.items.len(),
                self@ == before,
                before == old(self)@,
                before.no_duplicates(),
                before.len() <= MAX_TOPICS,
                forall|j: int| 0 <= j < i ==> self@[j] != c@,
            decreases self.items.len() - i,
        {
            if self.items[i] == *c {
                assert(before[i as int] == c@);
                assert(before.contains(c@));
                assert(before.index_of(c@) == i);
                self.items.remove(i);
                assert(self@ =~= before.remove(i as int));
                assert(!self@.contains(c@)) by {
                    if self@.contains(c@) {
                        let k = choose|k: int| 0 <= k < self@.len() && self@[k] == c@;
                        assert(before[if k < i { k } else { k + 1 }] == c@);
                    }
                }
                return true;
            }
            i += 1;
        }
        assert(!before.contains(c@));
        false
    }

    /// Removes every channel of this id. Returns how many were removed.
    pub fn remove_id(&mut self, id: &str) -> (removed: usize)
        requires
            old(self).wf(),
        ensures
            final(self).wf(),
            final(self)@ == old(self)@.filter(other_id(id@)),
            !has_id(final(self)@, id@),
            removed == old(self)@.len() - final(self)@.len(),
    {
        proof {
            lemma_filter_distinct(self@, other_id(id@));
            lemma_filter_other_id(self@, id@);
        }
        let kept = channels_without_id(&self.items, id);
        let removed = self.items.len() - kept.len();
        self.items = kept;
        removed
    }

    /// Copies of the tracked channels, in the order of adding.
    pub fn to_vec(&self) -> (v: Vec<Channel>)
        ensures
            channel_views(v@) == self@,
    {
        channels_copy(&self.items)
    }

    /// The set of tracked channels never holds more than `MAX_TOPICS`
    /// channels.
    pub proof fn lemma_bounded(&self)
        requires
            self.wf(),
        ensures
            self.members().finite(),
            self.members().len() == self@.len(),
            self.members().len() <= MAX_TOPICS,
    {
        self@.unique_seq_to_set();
        vstd::seq_lib::seq_to_set_is_finite(self@);
    }
}

/// The entries of a cache of channel lists in contracts: campaign ids, each
/// with its channels.
pub type ListEntries = Seq<(Seq<char>, Seq<ChannelView>)>;

/// The views of a run of entries, in order.
pub open spec fn list_views(s: Seq<(String, Vec<Channel>)>) -> ListEntries {
    s.map_values(|e: (String, Vec<Channel>)| (e.0@, channel_views(e.1@)))
}

/// Whether the `i`-th entry is that of the campaign `key`.
pub open spec fn keyed(entries: ListEntries, key: Seq<char>, i: int) -> bool {
    0 <= i < entries.len() && entries[i].0 == key
}

/// Whether no campaign has two entries.
pub open spec fn distinct_keys(entries: ListEntries) -> bool {
    forall|i: int, j: int| 0 <= i < j < entries.len() ==> entries[i].0 != entries[j].0
}

/// The map from campaign ids to channel lists that a run of entries makes
/// up.
pub open spec fn lists_of(entries: ListEntries) -> Map<Seq<char>, Seq<ChannelView>> {
    Map::new(
        |key: Seq<char>| exists|i: int| keyed(entries, key, i),
        |key: Seq<char>| entries[choose|i: int| keyed(entries, key, i)].1,
    )
}

/// The channel lists of campaigns, by campaign id: the allow-lists of the
/// campaigns that have one, or the live directories found for the others.
pub struct ChannelLists {
    entries: Vec<(String, Vec<Channel>)>,
}

impl View for ChannelLists {
    type V = Map<Seq<char>, Seq<ChannelView>>;

    closed spec fn view(&self) -> Map<Seq<char>, Seq<ChannelView>> {
        lists_of(list_views(self.entries@))
    }
}

impl ChannelLists {
    /// No campaign has two entries.
    pub closed spec fn wf(&self) -> bool {
        distinct_keys(list_views(self.entries@))
    }

    /// No lists.
    pub fn new() -> (lists: ChannelLists)
        ensures
            lists.wf(),
            lists@ == Map::<Seq<char>, Seq<ChannelView>>::empty(),
    {
        let lists = ChannelLists { entries: Vec::new() };
        assert(lists@ =~= Map::<Seq<char>, Seq<ChannelView>>::empty()) by {
            assert forall|key: Seq<char>| !lists@.dom().contains(key) by {
                if lists@.dom().contains(key) {
                    let i = choose|i: int| keyed(list_views(lists.entries@), key, i);
                    assert(keyed(list_views(lists.entries@), key, i));
                }
            }
        }
        lists
    }

    /// Whether no campaign has a list.
    pub fn is_empty(&self) -> (b: bool)
        ensures
            b == (self@ == Map::<Seq<char>, Seq<ChannelView>>::empty()),
    {
        let ghost all = list_views(self.entries@);
        if self.entries.len() == 0 {
            assert(self@ =~= Map::<Seq<char>, Seq<ChannelView>>::empty()) by {
                assert forall|key: Seq<char>| !self@.dom().contains(key) by {
                    if self@.dom().contains(key) {
                        let i = choose|i: int| keyed(all, key, i);
                        assert(keyed(all, key, i));
                    }
                }
            }
            true
        } else {
            assert(keyed(all, all[0].0, 0));
            assert(self@.dom().contains(all[0].0));
            false
        }
    }

    /// The position of the entry of the campaign, or the number of entries
    /// where it has none.
    fn position(&self, key: &String) -> (at: usize)
        ensures
            at <= self.entries@.len(),
            at < self.entries@.len() ==> keyed(list_views(self.entries@), key@, at as int),
            at == self.entries@.len() ==> !self@.contains_key(key@),
    {
        let ghost all = list_views(self.entries@);
        let mut i: usize = 0;
        while i < self.entries.len()
            invariant
                i <= self.entries.len(),
                all == list_views(self.entries@),
                forall|j: int| 0 <= j < i ==> !keyed(all, key@, j),
            decreases self.entries.len() - i,
        {
            if self.entries[i].0 == *key {
                return i;
            }
            i += 1;
        }
        assert(!self@.contains_key(key@)) by {
            if self@.contains_key(key@) {
                let k = choose|k: int| keyed(all, key@, k);
                assert(keyed(all, key@, k));
            }
        }
        i
    }

    /// The list of the campaign, if it has one.
    pub fn get(&self, campaign_id: &str) -> (list: Option<&Vec<Channel>>)
        requires
            self.wf(),
        ensures
            match list {
                Some(channels) => self@.contains_key(campaign_id@) && channel_views(channels@)
                    == self@[campaign_id@],
                None => !self@.contains_key(campaign_id@),
            },
    {
        let key = campaign_id.to_owned();
        let at = self.position(&key);
        if at < self.entries.len() {
            proof {
                let all = list_views(self.entries@);
                let k = choose|k: int| keyed(all, campaign_id@, k);
                assert(keyed(all, campaign_id@, at as int));
                assert(k == at);
            }
            Some(&self.entries[at].1)
        } else {
            None
        }
    }

    /// Sets the list of the campaign, in place of the one it had.
    pub fn insert(&mut self, campaign_id: &str, channels: Vec<Channel>)
        requires
            old(self).wf(),
        ensures
            final(self).wf(),
            final(self)@ == old(self)@.insert(campaign_id@, channel_views(channels@)),
    {
        let ghost before = list_views(self.entries@);
        let ghost list = channel_views(channels@);
        let key = campaign_id.to_owned();
        let at = self.position(&key);
        if at < self.entries.len() {
            self.entries.remove(at);
            self.entries.insert(at, (key, channels));
        } else {
            self.entries.push((key, channels));
        }
        proof {
            let after = list_views(self.entries@);
            let k = campaign_id@;
            assert(after.len() == if at < before.len() { before.len() } else { before.len() + 1 });
            assert(forall|j: int| 0 <= j < before.len() && j != at ==> after[j] == before[j]);
            assert(after[at as int] == (k, list));
            assert(keyed(after, k, at as int));
            assert(distinct_keys(after)) by {
                assert forall|i: int, j: int| 0 <= i < j < after.len() implies after[i].0
                    != after[j].0 by {
                    if i == at && at < before.len() {
                        assert(keyed(before, k, at as int));
                    } else if j == at {
                        if at < before.len() {
                            assert(keyed(before, k, at as int));
                        } else {
                            assert(!keyed(before, k, i));
                        }
                    }
                }
            }
            assert forall|key: Seq<char>| #[trigger]
                lists_of(after).dom().contains(key) <==> lists_of(before).insert(
                    k,
                    list,
                ).dom().contains(key) by {
                if lists_of(after).dom().contains(key) {
                    let i = choose|i: int| keyed(after, key, i);
                    assert(keyed(after, key, i));
                    if key != k {
                        assert(keyed(before, key, i));
                    }
                }
                if lists_of(before).dom().contains(key) && key != k {
                    let i = choose|i: int| keyed(before, key, i);
                    assert(keyed(before, key, i));
                    assert(keyed(after, key, i));
                }
            }
            assert forall|key: Seq<char>| #[trigger]
                lists_of(after).dom().contains(key) implies lists_of(after)[key] == lists_of(
                before,
            ).insert(k, list)[key] by {
                let i = choose|i: int| keyed(after, key, i);
                assert(keyed(after, key, i));
                if key == k {
                    assert(i == at) by {
                        if i < at {
                            assert(after[i].0 != after[at as int].0);
                        } else if at < i {
                            assert(after[at as int].0 != after[i].0);
                        }
                    }
                } else {
                    assert(keyed(before, key, i));
                    let j = choose|j: int| keyed(before, key, j);
                    assert(keyed(before, key, j));
                    assert(i == j) by {
                        if i < j {
                            assert(before[i].0 != before[j].0);
                        } else if j < i {
                            assert(before[j].0 != before[i].0);
                        }
                    }
                }
            }
            assert(self@ =~= lists_of(before).insert(k, list));
        }
    }
}

} // verus!
