//! Channel identities.

use vstd::prelude::*;
use vstd::std_specs::cmp::PartialEqSpecImpl;

verus! {

/// A channel of the platform: its id and its login name. Two channels are
/// the same when both fields agree.
#[derive(Debug, Eq, Hash)]
pub struct Channel {
    pub channel_id: String,
    pub channel_login: String,
}

/// What a channel is in contracts: the characters of its id and of its
/// login.
pub struct ChannelView {
    pub id: Seq<char>,
    pub login: Seq<char>,
}

impl View for Channel {
    type V = ChannelView;

    open spec fn view(&self) -> ChannelView {
        ChannelView { id: self.channel_id@, login: self.channel_login@ }
    }
}

impl Channel {
    /// A channel made of copies of the two given strings.
    pub fn new(channel_id: &str, channel_login: &str) -> (c: Channel)
        ensures
            c@ == (ChannelView { id: channel_id@, login: channel_login@ }),
    {
        Channel { channel_id: channel_id.to_owned(), channel_login: channel_login.to_owned() }
    }
}

impl Clone for Channel {
    fn clone(&self) -> (c: Channel)
        ensures
            c@ == self@,
    {
        Channel { channel_id: self.channel_id.clone(), channel_login: self.channel_login.clone() }
    }
}

impl Default for Channel {
    fn default() -> (c: Channel)
        ensures
            c@ == (ChannelView { id: Seq::empty(), login: Seq::empty() }),
    {
        Channel { channel_id: String::new(), channel_login: String::new() }
    }
}

impl PartialEq for Channel {
    fn eq(&self, other: &Channel) -> (b: bool) {
        self.channel_id == other.channel_id && self.channel_login == other.channel_login
    }
}

impl PartialEqSpecImpl for Channel {
    open spec fn obeys_eq_spec() -> bool {
        true
    }

    open spec fn eq_spec(&self, other: &Channel) -> bool {
        self@ == other@
    }
}

/// The views of a run of channels, in order.
pub open spec fn channel_views(s: Seq<Channel>) -> Seq<ChannelView> {
    s.map_values(|c: Channel| c@)
}

/// The test "has another id than `id`", as a predicate on channel views.
pub open spec fn other_id(id: Seq<char>) -> spec_fn(ChannelView) -> bool {
    |c: ChannelView| c.id != id
}

/// The test "occurs in `s`", as a predicate on channel views.
pub open spec fn member_of(s: Seq<ChannelView>) -> spec_fn(ChannelView) -> bool {
    |c: ChannelView| s.contains(c)
}

/// The test "does not occur in `s`", as a predicate on channel views.
pub open spec fn absent_from(s: Seq<ChannelView>) -> spec_fn(ChannelView) -> bool {
    |c: ChannelView| !s.contains(c)
}

/// Whether some channel of `s` has the id `id`.
pub open spec fn has_id(s: Seq<ChannelView>, id: Seq<char>) -> bool {
    exists|i: int| 0 <= i < s.len() && (#[trigger] s[i]).id == id
}

/// What a filter keeps of a run without repetitions: a run without
/// repetitions, no longer than the first, of exactly those items that pass
/// the test.
pub proof fn lemma_filter_distinct<A>(s: Seq<A>, p: spec_fn(A) -> bool)
    requires
        s.no_duplicates(),
    ensures
        s.filter(p).no_duplicates(),
        s.filter(p).len() <= s.len(),
        forall|c: A| #[trigger] s.filter(p).contains(c) <==> s.contains(c) && p(c),
    decreases s.len(),
{
    let f = s.filter(p);
    s.lemma_filter_len(p);
    assert forall|c: A| #[trigger] f.contains(c) <==> s.contains(c) && p(c) by {
        if f.contains(c) {
            let k = choose|k: int| 0 <= k < f.len() && f[k] == c;
            s.lemma_filter_pred(p, k);
            s.lemma_filter_contains_rev(p, c);
        }
        if s.contains(c) && p(c) {
            let k = choose|k: int| 0 <= k < s.len() && s[k] == c;
            s.lemma_filter_contains(p, k);
        }
    }
    if s.len() > 0 {
        let rest = s.drop_last();
        assert(rest.no_duplicates());
        lemma_filter_distinct(rest, p);
        assert(s =~= rest.push(s.last()));
        Seq::lemma_filter_push(rest, s.last(), p);
        if p(s.last()) {
            let g = rest.filter(p);
            assert(!rest.contains(s.last())) by {
                if rest.contains(s.last()) {
                    let k = choose|k: int| 0 <= k < rest.len() && rest[k] == s.last();
                    assert(s[k] == s[s.len() - 1]);
                }
            }
            assert(!g.contains(s.last()));
            assert(f == g.push(s.last()));
            assert forall|i: int, j: int| 0 <= i < f.len() && 0 <= j < f.len() && i != j implies f[i]
                != f[j] by {
                if i == f.len() - 1 {
                    assert(g.contains(f[j]));
                } else if j == f.len() - 1 {
                    assert(g.contains(f[i]));
                }
            }
        }
    } else {
        assert(f =~= s);
    }
}

/// Removing by an id leaves no channel of that id.
pub proof fn lemma_filter_other_id(s: Seq<ChannelView>, id: Seq<char>)
    ensures
        !has_id(s.filter(other_id(id)), id),
{
    let f = s.filter(other_id(id));
    if has_id(f, id) {
        let k = choose|i: int| 0 <= i < f.len() && (#[trigger] f[i]).id == id;
        s.lemma_filter_pred(other_id(id), k);
    }
}

/// Whether `c` is among `items`.
pub fn channels_contain(items: &Vec<Channel>, c: &Channel) -> (b: bool)
    ensures
        b == channel_views(items@).contains(c@),
{
    let ghost views = channel_views(items@);
    let mut i: usize = 0;
    while i < items.len()
        invariant
            i <= items.len(),
            views == channel_views(items@),
            forall|j: int| 0 <= j < i ==> views[j] != c@,
        decreases items.len() - i,
    {
        if items[i] == *c {
            assert(views[i as int] == c@);
            return true;
        }
        i += 1;
    }
    false
}

/// Whether a channel of the id `id` is among `items`.
pub fn channels_have_id(items: &Vec<Channel>, id: &String) -> (b: bool)
    ensures
        b == has_id(channel_views(items@), id@),
{
    let ghost views = channel_views(items@);
    let mut i: usize = 0;
    while i < items.len()
        invariant
            i <= items.len(),
            views == channel_views(items@),
            forall|j: int| 0 <= j < i ==> (#[trigger] views[j]).id != id@,
        decreases items.len() - i,
    {
        if items[i].channel_id == *id {
            assert(views[i as int].id == id@);
            return true;
        }
        i += 1;
    }
    false
}

/// Copies of those of `items` that have another id than `id`, in order.
pub fn channels_without_id(items: &Vec<Channel>, id: &str) -> (kept: Vec<Channel>)
    ensures
        channel_views(kept@) == channel_views(items@).filter(other_id(id@)),
{
    let ghost before = channel_views(items@);
    let wanted = id.to_owned();
    let mut kept: Vec<Channel> = Vec::new();
    let mut i: usize = 0;
    proof {
        assert(before.take(0) =~= Seq::<ChannelView>::empty());
        assert(channel_views(kept@) =~= Seq::<ChannelView>::empty());
    }
    while i < items.len()
        invariant
            i <= items.len(),
            before == channel_views(items@),
            wanted@ == id@,
            channel_views(kept@) == before.take(i as int).filter(other_id(id@)),
        decreases items.len() - i,
    {
        proof {
            assert(before.take(i + 1) =~= before.take(i as int).push(before[i as int]));
            Seq::lemma_filter_push(before.take(i as int), before[i as int], other_id(id@));
        }
        if items[i].channel_id != wanted {
            let ghost so_far = channel_views(kept@);
            kept.push(items[i].clone());
            assert(channel_views(kept@) =~= so_far.push(before[i as int]));
        }
        i += 1;
    }
    assert(before.take(i as int) =~= before);
    kept
}

/// Copies of those of `items` that occur in `other`, and of those that do
/// not, each in order.
pub fn channels_split(items: &Vec<Channel>, other: &Vec<Channel>) -> (parts: (
    Vec<Channel>,
    Vec<Channel>,
))
    ensures
        channel_views(parts.0@) == channel_views(items@).filter(
            member_of(channel_views(other@)),
        ),
        channel_views(parts.1@) == channel_views(items@).filter(
            absent_from(channel_views(other@)),
        ),
{
    let ghost all = channel_views(items@);
    let ghost others = channel_views(other@);
    let mut inside: Vec<Channel> = Vec::new();
    let mut outside: Vec<Channel> = Vec::new();
    let mut i: usize = 0;
    proof {
        assert(all.take(0) =~= Seq::<ChannelView>::empty());
        assert(channel_views(inside@) =~= Seq::<ChannelView>::empty());
        assert(channel_views(outside@) =~= Seq::<ChannelView>::empty());
    }
    while i < items.len()
        invariant
            i <= items.len(),
            all == channel_views(items@),
            others == channel_views(other@),
            channel_views(inside@) == all.take(i as int).filter(member_of(others)),
            channel_views(outside@) == all.take(i as int).filter(absent_from(others)),
        decreases items.len() - i,
    {
        proof {
            assert(all.take(i + 1) =~= all.take(i as int).push(all[i as int]));
            Seq::lemma_filter_push(all.take(i as int), all[i as int], member_of(others));
            Seq::lemma_filter_push(all.take(i as int), all[i as int], absent_from(others));
        }
        if channels_contain(other, &items[i]) {
            let ghost so_far = channel_views(inside@);
            inside.push(items[i].clone());
            assert(channel_views(inside@) =~= so_far.push(all[i as int]));
        } else {
            let ghost so_far = channel_views(outside@);
            outside.push(items[i].clone());
            assert(channel_views(outside@) =~= so_far.push(all[i as int]));
        }
        i += 1;
    }
    assert(all.take(i as int) =~= all);
    (inside, outside)
}

/// Copies of `items`, in order.
pub fn channels_copy(items: &Vec<Channel>) -> (v: Vec<Channel>)
    ensures
        channel_views(v@) == channel_views(items@),
{
    let ghost views = channel_views(items@);
    let mut v: Vec<Channel> = Vec::new();
    let mut i: usize = 0;
    assert(channel_views(v@) =~= views.take(0));
    while i < items.len()
        invariant
            i <= items.len(),
            views == channel_views(items@),
            channel_views(v@) == views.take(i as int),
        decreases items.len() - i,
    {
        let ghost so_far = channel_views(v@);
        v.push(items[i].clone());
        assert(channel_views(v@) =~= so_far.push(views[i as int]));
        assert(views.take(i + 1) =~= views.take(i as int).push(views[i as int]));
        i += 1;
    }
    assert(views.take(i as int) =~= views);
    v
}

/// The channel an account is watching: its login, its id, and the id of the
/// live stream that heartbeats are sent for (empty until it is resolved).
#[derive(Debug, Eq)]
pub struct NowWatched {
    pub channel_login: String,
    pub channel_id: String,
    pub stream_id: String,
}

/// A watched channel in contracts.
pub struct WatchedView {
    pub channel_login: Seq<char>,
    pub channel_id: Seq<char>,
    pub stream_id: Seq<char>,
}

impl View for NowWatched {
    type V = WatchedView;

    open spec fn view(&self) -> WatchedView {
        WatchedView {
            channel_login: self.channel_login@,
            channel_id: self.channel_id@,
            stream_id: self.stream_id@,
        }
    }
}

impl Clone for NowWatched {
    fn clone(&self) -> (c: NowWatched)
        ensures
            c@ == self@,
    {
        NowWatched {
            channel_login: self.channel_login.clone(),
            channel_id: self.channel_id.clone(),
            stream_id: self.stream_id.clone(),
        }
    }
}

impl Default for NowWatched {
    fn default() -> (c: NowWatched)
        ensures
            c@ == (WatchedView {
                channel_login: Seq::empty(),
                channel_id: Seq::empty(),
                stream_id: Seq::empty(),
            }),
    {
        NowWatched { channel_login: String::new(), channel_id: String::new(), stream_id: String::new() }
    }
}

impl PartialEq for NowWatched {
    fn eq(&self, other: &NowWatched) -> (b: bool) {
        self.channel_login == other.channel_login && self.channel_id == other.channel_id
            && self.stream_id == other.stream_id
    }
}

impl PartialEqSpecImpl for NowWatched {
    open spec fn obeys_eq_spec() -> bool {
        true
    }

    open spec fn eq_spec(&self, other: &NowWatched) -> bool {
        self@ == other@
    }
}

} // verus!
