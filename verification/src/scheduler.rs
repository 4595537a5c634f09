//! The priority scheduler: a queue of priority entries over the eligible
//! channels, brought up to date whenever the set of eligible channels
//! changes, and the choice of the channel to watch.
//!
//! A channel gets an entry for every campaign whose allow-list or live
//! directory names its id. Entries of one channel pile up across campaigns
//! and across passes: the queue is a multiset, not a set. The higher tier
//! wins; among equal tiers the entry that was queued first.

use vstd::prelude::*;
use crate::channel::{
    Channel, ChannelView, absent_from, channel_views, channels_copy, channels_have_id,
    channels_split, has_id,
};
use crate::registry::{ChannelLists, TrackedChannels, UPDATE_TIME};
use crate::text::string_views;

verus! {

/// Seconds that the selection rests after a target has been given up.
pub const SELECT_WAIT: u64 = 5;

/// A priority entry in contracts: the tier and the channel.
pub struct PriorityView {
    pub tier: u32,
    pub channel: ChannelView,
}

/// A priority entry: a channel and the tier it is queued with.
#[derive(Debug, PartialEq, Eq)]
pub struct Priority {
    pub priority: u32,
    pub name: Channel,
}

impl View for Priority {
    type V = PriorityView;

    open spec fn view(&self) -> PriorityView {
        PriorityView { tier: self.priority, channel: self.name@ }
    }
}

impl Clone for Priority {
    fn clone(&self) -> (p: Priority)
        ensures
            p@ == self@,
    {
        Priority { priority: self.priority, name: self.name.clone() }
    }
}

/// The views of a run of entries, in order.
pub open spec fn priority_views(s: Seq<Priority>) -> Seq<PriorityView> {
    s.map_values(|p: Priority| p@)
}

/// The tier of an entry. A channel of an allow-list ranks above a channel
/// of a live directory; within each, a listed channel that is itself among
/// the eligible channels ranks above one that is not.
pub open spec fn tier_of(allowed: bool, known: bool) -> u32 {
    if allowed {
        if known {
            3
        } else {
            1
        }
    } else {
        if known {
            2
        } else {
            0
        }
    }
}

/// The tier of an entry.
pub fn tier(allowed: bool, known: bool) -> (t: u32)
    ensures
        t == tier_of(allowed, known),
{
    if allowed {
        if known {
            3
        } else {
            1
        }
    } else {
        if known {
            2
        } else {
            0
        }
    }
}

/// The position of the entry that is chosen: the first of those with the
/// highest tier, or -1 for an empty queue.
pub open spec fn best(q: Seq<PriorityView>) -> int
    decreases q.len(),
{
    if q.len() == 0 {
        -1
    } else {
        let b = best(q.drop_last());
        if b >= 0 && q[b].tier >= q.last().tier {
            b
        } else {
            q.len() - 1
        }
    }
}

/// The chosen entry has the highest tier of the queue, and no entry before
/// it has that tier.
pub proof fn lemma_best(q: Seq<PriorityView>)
    requires
        q.len() > 0,
    ensures
        0 <= best(q) < q.len(),
        forall|i: int| 0 <= i < q.len() ==> (#[trigger] q[i]).tier <= q[best(q)].tier,
        forall|i: int| 0 <= i < best(q) ==> (#[trigger] q[i]).tier < q[best(q)].tier,
    decreases q.len(),
{
    if q.len() > 1 {
        lemma_best(q.drop_last());
        let b = best(q.drop_last());
        assert(q.drop_last()[b] == q[b]);
        assert forall|i: int| 0 <= i < q.len() implies (#[trigger] q[i]).tier <= q[best(q)].tier by {
            if i < q.len() - 1 {
                assert(q.drop_last()[i] == q[i]);
            }
        }
        assert forall|i: int| 0 <= i < best(q) implies (#[trigger] q[i]).tier < q[best(q)].tier by {
            assert(q.drop_last()[i] == q[i]);
        }
    } else {
        assert(best(q.drop_last()) == -1);
    }
}

/// Allow-listed before directory: in a queue with one entry of an
/// allow-listed channel, whose other entries are all of directory channels
/// that are as new or as old as it, the allow-listed channel is chosen.
pub proof fn lemma_allow_listed_first(q: Seq<PriorityView>, known: bool, at: int)
    requires
        0 <= at < q.len(),
        q[at].tier == tier_of(true, known),
        forall|i: int| 0 <= i < q.len() && i != at ==> (#[trigger] q[i]).tier == tier_of(false, known),
    ensures
        tier_of(true, known) > tier_of(false, known),
        best(q) == at,
{
    lemma_best(q);
    let b = best(q);
    if b != at {
        assert(q[at].tier <= q[b].tier);
    }
}

/// The channel of the id `id` in a list: the last one, where the list
/// holds several.
pub open spec fn channel_of_id(list: Seq<ChannelView>, id: Seq<char>) -> Option<ChannelView>
    decreases list.len(),
{
    if list.len() == 0 {
        None
    } else if list.last().id == id {
        Some(list.last())
    } else {
        channel_of_id(list.drop_last(), id)
    }
}

/// The entries that one list of a campaign gives the channel of the id
/// `id`: none where the campaign has no such list or the list does not name
/// the id; else one for the listed channel as a known channel, and before
/// it one for it as a new channel where the listed channel is not itself
/// among the eligible channels.
pub open spec fn entries_of_list(
    pool: Seq<ChannelView>,
    list: Option<Seq<ChannelView>>,
    id: Seq<char>,
    allowed: bool,
) -> Seq<PriorityView> {
    match list {
        Some(channels) => match channel_of_id(channels, id) {
            Some(c) => if pool.contains(c) {
                seq![PriorityView { tier: tier_of(allowed, true), channel: c }]
            } else {
                seq![
                    PriorityView { tier: tier_of(allowed, false), channel: c },
                    PriorityView { tier: tier_of(allowed, true), channel: c },
                ]
            },
            None => Seq::empty(),
        },
        None => Seq::empty(),
    }
}

/// The entries that a campaign gives the channel of the id `id`: those of
/// its allow-list, then those of its directory.
pub open spec fn entries_of_channel(
    pool: Seq<ChannelView>,
    allow: Option<Seq<ChannelView>>,
    directory: Option<Seq<ChannelView>>,
    id: Seq<char>,
) -> Seq<PriorityView> {
    entries_of_list(pool, allow, id, true) + entries_of_list(pool, directory, id, false)
}

/// The entries that a campaign gives the channels `upto`, in order.
pub open spec fn entries_of_campaign(
    pool: Seq<ChannelView>,
    upto: Seq<ChannelView>,
    allow: Option<Seq<ChannelView>>,
    directory: Option<Seq<ChannelView>>,
) -> Seq<PriorityView>
    decreases upto.len(),
{
    if upto.len() == 0 {
        Seq::empty()
    } else {
        entries_of_campaign(pool, upto.drop_last(), allow, directory) + entries_of_channel(
            pool,
            allow,
            directory,
            upto.last().id,
        )
    }
}

/// The entries that campaigns give the eligible channels: campaign by
/// campaign, and for each campaign channel by channel.
pub open spec fn entries_of_campaigns(
    pool: Seq<ChannelView>,
    campaigns: Seq<Seq<char>>,
    allow: Map<Seq<char>, Seq<ChannelView>>,
    directories: Map<Seq<char>, Seq<ChannelView>>,
) -> Seq<PriorityView>
    decreases campaigns.len(),
{
    if campaigns.len() == 0 {
        Seq::empty()
    } else {
        entries_of_campaigns(pool, campaigns.drop_last(), allow, directories) + entries_of_campaign(
            pool,
            pool,
            allow.get(campaigns.last()),
            directories.get(campaigns.last()),
        )
    }
}

/// The test "is of no channel whose id is among those of `gone`", as a
/// predicate on entries.
pub open spec fn not_named(gone: Seq<ChannelView>) -> spec_fn(PriorityView) -> bool {
    |e: PriorityView| !has_id(gone, e.channel.id)
}

/// The channels whose entries leave the queue: those seen at the last pass
/// that are no longer eligible, and the channel reported as stalled.
pub open spec fn gone_channels(
    seen: Seq<ChannelView>,
    pool: Seq<ChannelView>,
    stalled: Option<ChannelView>,
) -> Seq<ChannelView> {
    seen.filter(absent_from(pool)) + match stalled {
        Some(c) => seq![c],
        None => Seq::empty(),
    }
}

/// The state of the scheduler in contracts.
pub struct SchedulerView {
    /// The queue, in the order in which the entries were queued.
    pub queue: Seq<PriorityView>,
    /// The eligible channels as of the last pass that queued entries.
    pub seen: Seq<ChannelView>,
}

/// Whether a pass has nothing to work on: no channel is eligible, or no
/// campaign has a list yet.
pub open spec fn pass_idle(
    pool: Seq<ChannelView>,
    allow: Map<Seq<char>, Seq<ChannelView>>,
    directories: Map<Seq<char>, Seq<ChannelView>>,
) -> bool {
    pool.len() == 0 || (allow == Map::<Seq<char>, Seq<ChannelView>>::empty() && directories
        == Map::<Seq<char>, Seq<ChannelView>>::empty())
}

/// The scheduler after a pass. An idle pass changes nothing. Otherwise the
/// entries of the channels that are gone leave the queue, and where a
/// channel has become eligible since the last pass that queued entries,
/// every eligible channel is queued again for every campaign.
pub open spec fn after_pass(
    s: SchedulerView,
    pool: Seq<ChannelView>,
    campaigns: Seq<Seq<char>>,
    allow: Map<Seq<char>, Seq<ChannelView>>,
    directories: Map<Seq<char>, Seq<ChannelView>>,
    stalled: Option<ChannelView>,
) -> SchedulerView {
    if pass_idle(pool, allow, directories) {
        s
    } else {
        let kept = s.queue.filter(not_named(gone_channels(s.seen, pool, stalled)));
        if pool.filter(absent_from(s.seen)).len() > 0 {
            SchedulerView {
                queue: kept + entries_of_campaigns(pool, campaigns, allow, directories),
                seen: pool,
            }
        } else {
            SchedulerView { queue: kept, seen: s.seen }
        }
    }
}

/// Whether every entry of the queue is of a channel whose id is among those
/// of `channels`.
pub open spec fn queue_within(q: Seq<PriorityView>, channels: Seq<ChannelView>) -> bool {
    forall|i: int| 0 <= i < q.len() ==> has_id(channels, (#[trigger] q[i]).channel.id)
}

/// Whether the queue holds an entry of this tier for a channel of this id.
pub open spec fn queued_at(q: Seq<PriorityView>, tier: u32, id: Seq<char>) -> bool {
    exists|i: int| 0 <= i < q.len() && (#[trigger] q[i]).tier == tier && q[i].channel.id == id
}

/// The channel found for an id has that id and is in the list; none is
/// found only where the list holds no channel of the id.
pub proof fn lemma_channel_of_id(list: Seq<ChannelView>, id: Seq<char>)
    ensures
        match channel_of_id(list, id) {
            Some(c) => c.id == id && list.contains(c),
            None => !has_id(list, id),
        },
    decreases list.len(),
{
    if list.len() > 0 {
        if list.last().id == id {
            assert(list[list.len() - 1] == list.last());
        } else {
            let rest = list.drop_last();
            lemma_channel_of_id(rest, id);
            match channel_of_id(rest, id) {
                Some(c) => {
                    let k = choose|k: int| 0 <= k < rest.len() && rest[k] == c;
                    assert(list[k] == c);
                },
                None => {
                    if has_id(list, id) {
                        let k = choose|k: int| 0 <= k < list.len() && (#[trigger] list[k]).id == id;
                        assert(rest[k].id == id);
                    }
                },
            }
        }
    }
}

/// The entries that a list gives a channel are all of that channel's id,
/// and where the list names the id one of them has the tier of a known
/// channel.
pub proof fn lemma_entries_of_list(
    pool: Seq<ChannelView>,
    list: Option<Seq<ChannelView>>,
    id: Seq<char>,
    allowed: bool,
)
    ensures
        forall|i: int|
            0 <= i < entries_of_list(pool, list, id, allowed).len() ==> (#[trigger] entries_of_list(
                pool,
                list,
                id,
                allowed,
            )[i]).channel.id == id,
        list matches Some(channels) && has_id(channels, id) ==> queued_at(
            entries_of_list(pool, list, id, allowed),
            tier_of(allowed, true),
            id,
        ),
{
    if let Some(channels) = list {
        lemma_channel_of_id(channels, id);
        let e = entries_of_list(pool, list, id, allowed);
        if has_id(channels, id) {
            let c = channel_of_id(channels, id)->0;
            assert(e[e.len() - 1] == (PriorityView { tier: tier_of(allowed, true), channel: c }));
        }
    }
}

/// The entries that a campaign gives a run of channels are all of ids of
/// those channels; and each of them that the allow-list names gets an
/// entry of the top tier.
pub proof fn lemma_entries_of_campaign(
    pool: Seq<ChannelView>,
    upto: Seq<ChannelView>,
    allow: Option<Seq<ChannelView>>,
    directory: Option<Seq<ChannelView>>,
)
    ensures
        queue_within(entries_of_campaign(pool, upto, allow, directory), upto),
        forall|j: int|
            0 <= j < upto.len() && allow is Some && has_id(allow->0, (#[trigger] upto[j]).id)
                ==> queued_at(
                entries_of_campaign(pool, upto, allow, directory),
                tier_of(true, true),
                upto[j].id,
            ),
    decreases upto.len(),
{
    let all = entries_of_campaign(pool, upto, allow, directory);
    if upto.len() > 0 {
        let rest = upto.drop_last();
        let id = upto.last().id;
        let head = entries_of_campaign(pool, rest, allow, directory);
        let first = entries_of_list(pool, allow, id, true);
        let second = entries_of_list(pool, directory, id, false);
        lemma_entries_of_campaign(pool, rest, allow, directory);
        lemma_entries_of_list(pool, allow, id, true);
        lemma_entries_of_list(pool, directory, id, false);
        assert(all == head + (first + second));
        assert forall|i: int| 0 <= i < all.len() implies has_id(upto, (#[trigger] all[i]).channel.id) by {
            if i < head.len() {
                assert(all[i] == head[i]);
                let k = choose|k: int| 0 <= k < rest.len() && (#[trigger] rest[k]).id == head[i].channel.id;
                assert(upto[k].id == head[i].channel.id);
            } else if i < head.len() + first.len() {
                assert(all[i] == first[i - head.len()]);
                assert(upto[upto.len() - 1].id == id);
            } else {
                assert(all[i] == second[i - head.len() - first.len()]);
                assert(upto[upto.len() - 1].id == id);
            }
        }
        assert forall|j: int|
            0 <= j < upto.len() && allow is Some && has_id(
                allow->0,
                (#[trigger] upto[j]).id,
            ) implies queued_at(all, tier_of(true, true), upto[j].id) by {
            if j < upto.len() - 1 {
                assert(rest[j] == upto[j]);
                let k = choose|k: int|
                    0 <= k < head.len() && (#[trigger] head[k]).tier == tier_of(true, true)
                        && head[k].channel.id == upto[j].id;
                assert(all[k] == head[k]);
            } else {
                let k = choose|k: int|
                    0 <= k < first.len() && (#[trigger] first[k]).tier == tier_of(true, true)
                        && first[k].channel.id == id;
                assert(all[head.len() + k] == first[k]);
            }
        }
    }
}

/// The entries that campaigns give the eligible channels are all of ids of
/// eligible channels; and an eligible channel that the allow-list of one of
/// the campaigns names gets an entry of the top tier.
pub proof fn lemma_entries_of_campaigns(
    pool: Seq<ChannelView>,
    campaigns: Seq<Seq<char>>,
    allow: Map<Seq<char>, Seq<ChannelView>>,
    directories: Map<Seq<char>, Seq<ChannelView>>,
)
    ensures
        queue_within(entries_of_campaigns(pool, campaigns, allow, directories), pool),
        forall|k: int, j: int|
            0 <= k < campaigns.len() && 0 <= j < pool.len() && allow.contains_key(
                #[trigger] campaigns[k],
            ) && has_id(allow[campaigns[k]], (#[trigger] pool[j]).id) ==> queued_at(
                entries_of_campaigns(pool, campaigns, allow, directories),
                tier_of(true, true),
                pool[j].id,
            ),
    decreases campaigns.len(),
{
    let all = entries_of_campaigns(pool, campaigns, allow, directories);
    if campaigns.len() > 0 {
        let rest = campaigns.drop_last();
        let head = entries_of_campaigns(pool, rest, allow, directories);
        let tail = entries_of_campaign(
            pool,
            pool,
            allow.get(campaigns.last()),
            directories.get(campaigns.last()),
        );
        lemma_entries_of_campaigns(pool, rest, allow, directories);
        lemma_entries_of_campaign(
            pool,
            pool,
            allow.get(campaigns.last()),
            directories.get(campaigns.last()),
        );
        assert(all == head + tail);
        assert forall|i: int| 0 <= i < all.len() implies has_id(pool, (#[trigger] all[i]).channel.id) by {
            if i < head.len() {
                assert(all[i] == head[i]);
            } else {
                assert(all[i] == tail[i - head.len()]);
            }
        }
        assert forall|k: int, j: int|
            0 <= k < campaigns.len() && 0 <= j < pool.len() && allow.contains_key(
                #[trigger] campaigns[k],
            ) && has_id(allow[campaigns[k]], (#[trigger] pool[j]).id) implies queued_at(
            all,
            tier_of(true, true),
            pool[j].id,
        ) by {
            if k < campaigns.len() - 1 {
                assert(rest[k] == campaigns[k]);
                let m = choose|m: int|
                    0 <= m < head.len() && (#[trigger] head[m]).tier == tier_of(true, true)
                        && head[m].channel.id == pool[j].id;
                assert(all[m] == head[m]);
            } else {
                assert(campaigns[k] == campaigns.last());
                let m = choose|m: int|
                    0 <= m < tail.len() && (#[trigger] tail[m]).tier == tier_of(true, true)
                        && tail[m].channel.id == pool[j].id;
                assert(all[head.len() + m] == tail[m]);
            }
        }
    }
}

/// What is chosen is eligible: if every entry of the queue was of a channel
/// seen at the last pass, then after a pass that is not idle every entry is
/// of a channel that is eligible now, and of one seen at this pass. So the
/// channel chosen from the published queue has the id of an eligible
/// channel, or the queue is empty.
pub proof fn lemma_pass_keeps_queue_eligible(
    s: SchedulerView,
    pool: Seq<ChannelView>,
    campaigns: Seq<Seq<char>>,
    allow: Map<Seq<char>, Seq<ChannelView>>,
    directories: Map<Seq<char>, Seq<ChannelView>>,
    stalled: Option<ChannelView>,
)
    requires
        queue_within(s.queue, s.seen),
        !pass_idle(pool, allow, directories),
    ensures
        queue_within(after_pass(s, pool, campaigns, allow, directories, stalled).queue, pool),
        queue_within(
            after_pass(s, pool, campaigns, allow, directories, stalled).queue,
            after_pass(s, pool, campaigns, allow, directories, stalled).seen,
        ),
{
    let gone = gone_channels(s.seen, pool, stalled);
    let left = s.seen.filter(absent_from(pool));
    let kept = s.queue.filter(not_named(gone));
    let fresh = pool.filter(absent_from(s.seen));
    let next = after_pass(s, pool, campaigns, allow, directories, stalled);
    let pushed = entries_of_campaigns(pool, campaigns, allow, directories);
    lemma_entries_of_campaigns(pool, campaigns, allow, directories);
    assert forall|i: int| 0 <= i < kept.len() implies has_id(pool, (#[trigger] kept[i]).channel.id) by {
        s.queue.lemma_filter_pred(not_named(gone), i);
        assert(kept.contains(kept[i]));
        s.queue.lemma_filter_contains_rev(not_named(gone), kept[i]);
        let m = choose|m: int| 0 <= m < s.queue.len() && s.queue[m] == kept[i];
        let id = kept[i].channel.id;
        assert(has_id(s.seen, s.queue[m].channel.id));
        let k = choose|k: int| 0 <= k < s.seen.len() && (#[trigger] s.seen[k]).id == id;
        let c = s.seen[k];
        if !pool.contains(c) {
            s.seen.lemma_filter_contains(absent_from(pool), k);
            let n = choose|n: int| 0 <= n < left.len() && left[n] == c;
            assert(gone[n] == left[n]);
            assert(gone[n].id == id);
            assert(has_id(gone, id));
        }
        let n = choose|n: int| 0 <= n < pool.len() && pool[n] == c;
        assert(pool[n].id == id);
    }
    if fresh.len() > 0 {
        assert forall|i: int| 0 <= i < next.queue.len() implies has_id(
            pool,
            (#[trigger] next.queue[i]).channel.id,
        ) by {
            if i < kept.len() {
                assert(next.queue[i] == kept[i]);
            } else {
                assert(next.queue[i] == pushed[i - kept.len()]);
            }
        }
    } else {
        assert forall|i: int| 0 <= i < kept.len() implies has_id(
            s.seen,
            (#[trigger] kept[i]).channel.id,
        ) by {
            let id = kept[i].channel.id;
            let n = choose|n: int| 0 <= n < pool.len() && (#[trigger] pool[n]).id == id;
            if !s.seen.contains(pool[n]) {
                pool.lemma_filter_contains(absent_from(s.seen), n);
            }
            let k = choose|k: int| 0 <= k < s.seen.len() && s.seen[k] == pool[n];
            assert(s.seen[k].id == id);
        }
    }
}

/// Allow-listed channels come out on top: after a pass that queues the
/// eligible channels anew, an eligible channel that the allow-list of one
/// of the campaigns names has an entry of the top tier, and so has the
/// chosen entry.
pub proof fn lemma_allow_listed_on_top(
    s: SchedulerView,
    pool: Seq<ChannelView>,
    campaigns: Seq<Seq<char>>,
    allow: Map<Seq<char>, Seq<ChannelView>>,
    directories: Map<Seq<char>, Seq<ChannelView>>,
    stalled: Option<ChannelView>,
    k: int,
    j: int,
)
    requires
        !pass_idle(pool, allow, directories),
        pool.filter(absent_from(s.seen)).len() > 0,
        0 <= k < campaigns.len(),
        0 <= j < pool.len(),
        allow.contains_key(campaigns[k]),
        has_id(allow[campaigns[k]], pool[j].id),
    ensures
        ({
            let q = after_pass(s, pool, campaigns, allow, directories, stalled).queue;
            &&& queued_at(q, tier_of(true, true), pool[j].id)
            &&& q[best(q)].tier >= tier_of(true, true)
        }),
{
    let gone = gone_channels(s.seen, pool, stalled);
    let kept = s.queue.filter(not_named(gone));
    let pushed = entries_of_campaigns(pool, campaigns, allow, directories);
    let q = after_pass(s, pool, campaigns, allow, directories, stalled).queue;
    lemma_entries_of_campaigns(pool, campaigns, allow, directories);
    let m = choose|m: int|
        0 <= m < pushed.len() && (#[trigger] pushed[m]).tier == tier_of(true, true) && pushed[m].channel.id
            == pool[j].id;
    assert(q[kept.len() + m] == pushed[m]);
    lemma_best(q);
}

/// Whether every entry that the queue holds for a channel of this id has
/// at most this tier.
pub open spec fn tiers_at_most(q: Seq<PriorityView>, id: Seq<char>, tier: u32) -> bool {
    forall|i: int| 0 <= i < q.len() && (#[trigger] q[i]).channel.id == id ==> q[i].tier <= tier
}

/// Whether no allow-list of these campaigns names a channel of this id.
pub open spec fn in_no_allow_list(
    campaigns: Seq<Seq<char>>,
    allow: Map<Seq<char>, Seq<ChannelView>>,
    id: Seq<char>,
) -> bool {
    forall|k: int|
        0 <= k < campaigns.len() && allow.contains_key(#[trigger] campaigns[k]) ==> !has_id(
            allow[campaigns[k]],
            id,
        )
}

/// A list gives a channel no entry above the tiers of a directory, unless
/// it is an allow-list that names the channel's id.
pub proof fn lemma_directory_tiers_of_list(
    pool: Seq<ChannelView>,
    list: Option<Seq<ChannelView>>,
    at: Seq<char>,
    allowed: bool,
    id: Seq<char>,
)
    requires
        allowed ==> (list matches Some(l) ==> !has_id(l, id)),
    ensures
        tiers_at_most(entries_of_list(pool, list, at, allowed), id, tier_of(false, true)),
{
    let e = entries_of_list(pool, list, at, allowed);
    if let Some(l) = list {
        lemma_channel_of_id(l, at);
        if let Some(c) = channel_of_id(l, at) {
            let k = choose|k: int| 0 <= k < l.len() && l[k] == c;
            assert(l[k].id == at);
            assert(has_id(l, at));
            assert forall|i: int| 0 <= i < e.len() implies (#[trigger] e[i]).channel == c by {}
            if allowed {
                assert(at != id);
            }
        }
    }
}

/// A campaign gives a channel that its allow-list does not name no entry
/// above the tiers of a directory.
pub proof fn lemma_directory_tiers_of_campaign(
    pool: Seq<ChannelView>,
    upto: Seq<ChannelView>,
    allow: Option<Seq<ChannelView>>,
    directory: Option<Seq<ChannelView>>,
    id: Seq<char>,
)
    requires
        allow matches Some(list) ==> !has_id(list, id),
    ensures
        tiers_at_most(entries_of_campaign(pool, upto, allow, directory), id, tier_of(false, true)),
    decreases upto.len(),
{
    let all = entries_of_campaign(pool, upto, allow, directory);
    if upto.len() > 0 {
        let rest = upto.drop_last();
        let at = upto.last().id;
        let head = entries_of_campaign(pool, rest, allow, directory);
        let first = entries_of_list(pool, allow, at, true);
        let second = entries_of_list(pool, directory, at, false);
        lemma_directory_tiers_of_campaign(pool, rest, allow, directory, id);
        lemma_directory_tiers_of_list(pool, allow, at, true, id);
        lemma_directory_tiers_of_list(pool, directory, at, false, id);
        lemma_tiers_of_joined(first, second, id, tier_of(false, true));
        lemma_tiers_of_joined(head, first + second, id, tier_of(false, true));
        assert(all == head + (first + second));
    }
}

/// Two queues that hold no entry above a tier for an id hold none when
/// joined.
pub proof fn lemma_tiers_of_joined(
    head: Seq<PriorityView>,
    tail: Seq<PriorityView>,
    id: Seq<char>,
    tier: u32,
)
    requires
        tiers_at_most(head, id, tier),
        tiers_at_most(tail, id, tier),
    ensures
        tiers_at_most(head + tail, id, tier),
{
    let all = head + tail;
    assert forall|i: int| 0 <= i < all.len() && (#[trigger] all[i]).channel.id == id implies all[i].tier
        <= tier by {
        if i < head.len() {
            assert(all[i] == head[i]);
        } else {
            assert(all[i] == tail[i - head.len()]);
        }
    }
}

/// Campaigns give a channel that none of their allow-lists names no entry
/// above the tiers of a directory.
pub proof fn lemma_directory_tiers(
    pool: Seq<ChannelView>,
    campaigns: Seq<Seq<char>>,
    allow: Map<Seq<char>, Seq<ChannelView>>,
    directories: Map<Seq<char>, Seq<ChannelView>>,
    id: Seq<char>,
)
    requires
        in_no_allow_list(campaigns, allow, id),
    ensures
        tiers_at_most(
            entries_of_campaigns(pool, campaigns, allow, directories),
            id,
            tier_of(false, true),
        ),
    decreases campaigns.len(),
{
    let all = entries_of_campaigns(pool, campaigns, allow, directories);
    if campaigns.len() > 0 {
        let rest = campaigns.drop_last();
        let head = entries_of_campaigns(pool, rest, allow, directories);
        let tail = entries_of_campaign(
            pool,
            pool,
            allow.get(campaigns.last()),
            directories.get(campaigns.last()),
        );
        assert forall|k: int|
            0 <= k < rest.len() && allow.contains_key(#[trigger] rest[k]) implies !has_id(
            allow[rest[k]],
            id,
        ) by {
            assert(rest[k] == campaigns[k]);
        }
        lemma_directory_tiers(pool, rest, allow, directories, id);
        assert(campaigns[campaigns.len() - 1] == campaigns.last());
        lemma_directory_tiers_of_campaign(
            pool,
            pool,
            allow.get(campaigns.last()),
            directories.get(campaigns.last()),
            id,
        );
        lemma_tiers_of_joined(head, tail, id, tier_of(false, true));
        assert(all == head + tail);
    }
}

/// Allow-listed stays above directory, pass after pass. Take a channel A
/// that has an entry of the top tier and is not gone, and a channel D that
/// no allow-list names and that had no entry above the tiers of a directory.
/// After any pass that is not idle, A still has its entry of the top tier,
/// D still has no entry above the tiers of a directory, and the chosen
/// entry is not one of D.
pub proof fn lemma_allow_listed_stays_on_top(
    s: SchedulerView,
    pool: Seq<ChannelView>,
    campaigns: Seq<Seq<char>>,
    allow: Map<Seq<char>, Seq<ChannelView>>,
    directories: Map<Seq<char>, Seq<ChannelView>>,
    stalled: Option<ChannelView>,
    a: Seq<char>,
    d: Seq<char>,
)
    requires
        !pass_idle(pool, allow, directories),
        queued_at(s.queue, tier_of(true, true), a),
        !has_id(gone_channels(s.seen, pool, stalled), a),
        tiers_at_most(s.queue, d, tier_of(false, true)),
        in_no_allow_list(campaigns, allow, d),
    ensures
        ({
            let q = after_pass(s, pool, campaigns, allow, directories, stalled).queue;
            &&& queued_at(q, tier_of(true, true), a)
            &&& tiers_at_most(q, d, tier_of(false, true))
            &&& q[best(q)].tier >= tier_of(true, true)
            &&& q[best(q)].channel.id != d
        }),
{
    let gone = gone_channels(s.seen, pool, stalled);
    let keep = not_named(gone);
    let kept = s.queue.filter(keep);
    let pushed = entries_of_campaigns(pool, campaigns, allow, directories);
    let q = after_pass(s, pool, campaigns, allow, directories, stalled).queue;
    lemma_directory_tiers(pool, campaigns, allow, directories, d);
    let m = choose|m: int|
        0 <= m < s.queue.len() && (#[trigger] s.queue[m]).tier == tier_of(true, true)
            && s.queue[m].channel.id == a;
    assert(keep(s.queue[m]));
    s.queue.lemma_filter_contains(keep, m);
    let n = choose|n: int| 0 <= n < kept.len() && kept[n] == s.queue[m];
    assert(q[n] == kept[n]);
    assert(queued_at(q, tier_of(true, true), a));
    assert forall|i: int| 0 <= i < kept.len() && (#[trigger] kept[i]).channel.id == d implies kept[i].tier
        <= tier_of(false, true) by {
        assert(kept.contains(kept[i]));
        s.queue.lemma_filter_contains_rev(keep, kept[i]);
        let k = choose|k: int| 0 <= k < s.queue.len() && s.queue[k] == kept[i];
        assert(s.queue[k].channel.id == d);
    }
    assert forall|i: int| 0 <= i < q.len() && (#[trigger] q[i]).channel.id == d implies q[i].tier
        <= tier_of(false, true) by {
        if i < kept.len() {
            assert(q[i] == kept[i]);
        } else {
            assert(q[i] == pushed[i - kept.len()]);
        }
    }
    lemma_best(q);
    assert(q[n].tier <= q[best(q)].tier);
}

/// What follows from a published queue.
#[derive(Debug, PartialEq, Eq)]
pub enum Selection {
    /// Announce the channel as the one to watch and wait until the
    /// accounts give it up. Then report it to the scheduler as stalled,
    /// and rest before the next queue is looked at.
    Watch { channel: Channel, rest_secs: u64 },
    /// The queue is empty: announce nothing, and look again after the
    /// interval of the refill loop.
    Nothing { retry_secs: u64 },
}

impl Clone for Selection {
    fn clone(&self) -> (c: Selection)
        ensures
            match (*self, c) {
                (
                    Selection::Watch { channel, rest_secs },
                    Selection::Watch { channel: copied, rest_secs: rest },
                ) => copied@ == channel@ && rest == rest_secs,
                (Selection::Nothing { retry_secs }, Selection::Nothing { retry_secs: retry }) => retry
                    == retry_secs,
                _ => false,
            },
    {
        match self {
            Selection::Watch { channel, rest_secs } => Selection::Watch {
                channel: channel.clone(),
                rest_secs: *rest_secs,
            },
            Selection::Nothing { retry_secs } => Selection::Nothing { retry_secs: *retry_secs },
        }
    }
}

/// The scheduler: the queue and what it knew of the eligible channels when
/// it last queued entries.
pub struct Scheduler {
    queue: Vec<Priority>,
    seen: Vec<Channel>,
}

impl View for Scheduler {
    type V = SchedulerView;

    closed spec fn view(&self) -> SchedulerView {
        SchedulerView { queue: priority_views(self.queue@), seen: channel_views(self.seen@) }
    }
}

impl Scheduler {
    /// Every entry of the queue is of a channel that was eligible at the
    /// last pass that queued entries.
    pub open spec fn wf(&self) -> bool {
        queue_within(self@.queue, self@.seen)
    }

    /// A scheduler with an empty queue that has seen no channel.
    pub fn new() -> (s: Scheduler)
        ensures
            s.wf(),
            s@ == (SchedulerView { queue: Seq::empty(), seen: Seq::empty() }),
    {
        let s = Scheduler { queue: Vec::new(), seen: Vec::new() };
        assert(s@.queue =~= Seq::<PriorityView>::empty());
        assert(s@.seen =~= Seq::<ChannelView>::empty());
        s
    }

    /// How many entries are queued.
    pub fn len(&self) -> (n: usize)
        ensures
            n == self@.queue.len(),
    {
        self.queue.len()
    }

    /// A copy of the `i`-th entry, in the order of queueing.
    pub fn entry(&self, i: usize) -> (p: Priority)
        requires
            i < self@.queue.len(),
        ensures
            p@ == self@.queue[i as int],
    {
        self.queue[i].clone()
    }

    /// The channel to watch next: that of the first entry of the highest
    /// tier, or none where the queue is empty. The queue stays as it is.
    /// The channel has the id of a channel that was eligible at the last
    /// pass.
    pub fn select(&self) -> (target: Option<Channel>)
        requires
            self.wf(),
        ensures
            match target {
                Some(c) => self@.queue.len() > 0 && c@ == self@.queue[best(self@.queue)].channel
                    && has_id(self@.seen, c@.id),
                None => self@.queue.len() == 0,
            },
    {
        if self.queue.len() == 0 {
            return None;
        }
        let ghost q = self@.queue;
        let mut b: usize = 0;
        let mut i: usize = 1;
        assert(best(q.take(1)) == 0) by {
            reveal_with_fuel(best, 2);
        }
        while i < self.queue.len()
            invariant
                1 <= i <= self.queue.len(),
                q == priority_views(self.queue@),
                b < i,
                b == best(q.take(i as int)),
            decreases self.queue.len() - i,
        {
            proof {
                assert(q.take(i + 1).drop_last() =~= q.take(i as int));
            }
            if self.queue[b].priority < self.queue[i].priority {
                b = i;
            }
            i += 1;
        }
        assert(q.take(i as int) =~= q);
        assert(has_id(self@.seen, q[b as int].channel.id));
        Some(self.queue[b].name.clone())
    }

    /// What follows from the queue as it is: the chosen channel is
    /// announced, or nothing is where the queue is empty.
    pub fn selection(&self) -> (selection: Selection)
        requires
            self.wf(),
        ensures
            match selection {
                Selection::Watch { channel, rest_secs } => self@.queue.len() > 0 && channel@
                    == self@.queue[best(self@.queue)].channel && has_id(self@.seen, channel@.id)
                    && rest_secs == SELECT_WAIT,
                Selection::Nothing { retry_secs } => self@.queue.len() == 0 && retry_secs
                    == UPDATE_TIME,
            },
    {
        match self.select() {
            Some(channel) => Selection::Watch { channel, rest_secs: SELECT_WAIT },
            None => Selection::Nothing { retry_secs: UPDATE_TIME },
        }
    }
}

/// The channel of the id `id` in `list`.
fn find_channel<'a>(list: &'a Vec<Channel>, id: &String) -> (found: Option<&'a Channel>)
    ensures
        match found {
            Some(c) => channel_of_id(channel_views(list@), id@) == Some(c@),
            None => channel_of_id(channel_views(list@), id@) is None,
        },
{
    let ghost views = channel_views(list@);
    let mut found: Option<&'a Channel> = None;
    let mut i: usize = 0;
    while i < list.len()
        invariant
            i <= list.len(),
            views == channel_views(list@),
            match found {
                Some(c) => channel_of_id(views.take(i as int), id@) == Some(c@),
                None => channel_of_id(views.take(i as int), id@) is None,
            },
        decreases list.len() - i,
    {
        proof {
            assert(views.take(i + 1).drop_last() =~= views.take(i as int));
        }
        if list[i].channel_id == *id {
            found = Some(&list[i]);
        }
        i += 1;
    }
    assert(views.take(i as int) =~= views);
    found
}

/// Queues the entries that one list of a campaign gives the channel of the
/// id `id`.
fn queue_list(
    queue: &mut Vec<Priority>,
    pool: &TrackedChannels,
    list: Option<&Vec<Channel>>,
    id: &String,
    allowed: bool,
)
    ensures
        priority_views(final(queue)@) == priority_views(old(queue)@) + entries_of_list(
            pool@,
            match list {
                Some(l) => Some(channel_views(l@)),
                None => None,
            },
            id@,
            allowed,
        ),
{
    let ghost before = priority_views(queue@);
    if let Some(channels) = list {
        if let Some(c) = find_channel(channels, id) {
            if !pool.contains(c) {
                queue.push(Priority { priority: tier(allowed, false), name: c.clone() });
            }
            queue.push(Priority { priority: tier(allowed, true), name: c.clone() });
            assert(priority_views(queue@) =~= before + entries_of_list(
                pool@,
                Some(channel_views(channels@)),
                id@,
                allowed,
            ));
            return ;
        }
    }
    assert(priority_views(queue@) =~= before + Seq::<PriorityView>::empty());
}

/// Queues the entries that a campaign gives the eligible channels.
fn queue_campaign(
    queue: &mut Vec<Priority>,
    pool: &TrackedChannels,
    allow: Option<&Vec<Channel>>,
    directory: Option<&Vec<Channel>>,
)
    ensures
        priority_views(final(queue)@) == priority_views(old(queue)@) + entries_of_campaign(
            pool@,
            pool@,
            match allow {
                Some(l) => Some(channel_views(l@)),
                None => None,
            },
            match directory {
                Some(l) => Some(channel_views(l@)),
                None => None,
            },
        ),
{
    let ghost before = priority_views(queue@);
    let ghost allow_view = match allow {
        Some(l) => Some(channel_views(l@)),
        None => None,
    };
    let ghost directory_view = match directory {
        Some(l) => Some(channel_views(l@)),
        None => None,
    };
    let mut i: usize = 0;
    assert(priority_views(queue@) =~= before + entries_of_campaign(
        pool@,
        pool@.take(0),
        allow_view,
        directory_view,
    ));
    while i < pool.len()
        invariant
            i <= pool@.len(),
            allow_view == match allow {
                Some(l) => Some(channel_views(l@)),
                None => None,
            },
            directory_view == match directory {
                Some(l) => Some(channel_views(l@)),
                None => None,
            },
            priority_views(queue@) == before + entries_of_campaign(
                pool@,
                pool@.take(i as int),
                allow_view,
                directory_view,
            ),
        decreases pool@.len() - i,
    {
        let ghost so_far = priority_views(queue@);
        let id = &pool.get(i).channel_id;
        queue_list(queue, pool, allow, id, true);
        queue_list(queue, pool, directory, id, false);
        proof {
            assert(pool@.take(i + 1).drop_last() =~= pool@.take(i as int));
            assert(pool@.take(i + 1).last() == pool@[i as int]);
            assert(priority_views(queue@) =~= so_far + entries_of_channel(
                pool@,
                allow_view,
                directory_view,
                id@,
            ));
            assert(priority_views(queue@) =~= before + entries_of_campaign(
                pool@,
                pool@.take(i + 1),
                allow_view,
                directory_view,
            ));
        }
        i += 1;
    }
    assert(pool@.take(i as int) =~= pool@);
}

/// Copies of the entries of `queue` that are of no channel whose id is
/// among those of `gone`, in order.
fn queue_without(queue: &Vec<Priority>, gone: &Vec<Channel>) -> (kept: Vec<Priority>)
    ensures
        priority_views(kept@) == priority_views(queue@).filter(not_named(channel_views(gone@))),
{
    let ghost q = priority_views(queue@);
    let ghost p = not_named(channel_views(gone@));
    let mut kept: Vec<Priority> = Vec::new();
    let mut i: usize = 0;
    proof {
        assert(q.take(0) =~= Seq::<PriorityView>::empty());
        assert(priority_views(kept@) =~= Seq::<PriorityView>::empty());
    }
    while i < queue.len()
        invariant
            i <= queue.len(),
            q == priority_views(queue@),
            p == not_named(channel_views(gone@)),
            priority_views(kept@) == q.take(i as int).filter(p),
        decreases queue.len() - i,
    {
        proof {
            assert(q.take(i + 1) =~= q.take(i as int).push(q[i as int]));
            Seq::lemma_filter_push(q.take(i as int), q[i as int], p);
        }
        if !channels_have_id(gone, &queue[i].name.channel_id) {
            let ghost so_far = priority_views(kept@);
            kept.push(queue[i].clone());
            assert(priority_views(kept@) =~= so_far.push(q[i as int]));
        }
        i += 1;
    }
    assert(q.take(i as int) =~= q);
    kept
}

/// One pass of the scheduler over the registry: brings the queue up to
/// date with the eligible channels `pool`, the lists `allow` and
/// `directories` that the campaigns were found to have, and the channel
/// last reported as stalled, if any. `campaigns` holds the ids of the
/// campaigns, in their order. Returns whether the queue is to be published:
/// it is not after an idle pass.
pub fn update_stream(
    scheduler: &mut Scheduler,
    pool: &TrackedChannels,
    campaigns: &Vec<String>,
    allow: &ChannelLists,
    directories: &ChannelLists,
    stalled: Option<&Channel>,
) -> (published: bool)
    requires
        old(scheduler).wf(),
        allow.wf(),
        directories.wf(),
    ensures
        final(scheduler).wf(),
        published == !pass_idle(pool@, allow@, directories@),
        published ==> queue_within(final(scheduler)@.queue, pool@),
        final(scheduler)@ == after_pass(
            old(scheduler)@,
            pool@,
            string_views(campaigns@),
            allow@,
            directories@,
            match stalled {
                Some(c) => Some(c@),
                None => None,
            },
        ),
{
    if pool.is_empty() || (allow.is_empty() && directories.is_empty()) {
        return false;
    }
    let ghost before = scheduler@;
    let ghost ids = string_views(campaigns@);
    proof {
        lemma_pass_keeps_queue_eligible(
            before,
            pool@,
            ids,
            allow@,
            directories@,
            match stalled {
                Some(c) => Some(c@),
                None => None,
            },
        );
    }
    let eligible = pool.to_vec();
    let (_, mut gone) = channels_split(&scheduler.seen, &eligible);
    let (_, fresh) = channels_split(&eligible, &scheduler.seen);
    let ghost left = channel_views(gone@);
    if let Some(c) = stalled {
        gone.push(c.clone());
        assert(channel_views(gone@) =~= left + seq![c@]);
    } else {
        assert(channel_views(gone@) =~= left + Seq::<ChannelView>::empty());
    }
    let mut queue = queue_without(&scheduler.queue, &gone);
    let ghost kept = priority_views(queue@);
    if fresh.len() > 0 {
        let mut i: usize = 0;
        assert(priority_views(queue@) =~= kept + entries_of_campaigns(
            pool@,
            ids.take(0),
            allow@,
            directories@,
        ));
        while i < campaigns.len()
            invariant
                i <= campaigns.len(),
                allow.wf(),
                directories.wf(),
                ids == string_views(campaigns@),
                priority_views(queue@) == kept + entries_of_campaigns(
                    pool@,
                    ids.take(i as int),
                    allow@,
                    directories@,
                ),
            decreases campaigns.len() - i,
        {
            let id = campaigns[i].as_str();
            let allow_list = allow.get(id);
            let directory = directories.get(id);
            proof {
                assert(ids.take(i + 1).drop_last() =~= ids.take(i as int));
                assert(ids.take(i + 1).last() == id@);
            }
            queue_campaign(&mut queue, pool, allow_list, directory);
            i += 1;
        }
        assert(ids.take(i as int) =~= ids);
        scheduler.seen = channels_copy(&eligible);
    }
    scheduler.queue = queue;
    true
}

} // verus!
