//! The presence feed: a subscription that mirrors the set of eligible
//! channels, and the messages that take a channel out of it.

use vstd::prelude::*;
use vstd::string::StringExecFns;
use crate::channel::{
    Channel, ChannelView, absent_from, channel_views, channels_contain, channels_copy,
    channels_split, channels_without_id, has_id, lemma_filter_distinct, lemma_filter_other_id,
    member_of, other_id,
};
use crate::json::{
    json_doc, json_get, json_member, json_number, json_str, json_text, json_u64, parse_json,
};
use crate::registry::TrackedChannels;
use crate::text::{
    dotless, has_infix, last_segment, last_segment_of, lemma_last_segment_of_joined, occurs_in,
    string_views,
};

verus! {

/// The topic on which the feed reports the viewers of the channel `id`.
pub open spec fn topic_for(id: Seq<char>) -> Seq<char> {
    "video-playback-by-id."@ + id
}

/// The topics of a run of channels, in order.
pub open spec fn topics_for(s: Seq<ChannelView>) -> Seq<Seq<char>> {
    s.map_values(|c: ChannelView| topic_for(c.id))
}

/// The marker by which a keepalive message is known.
pub open spec fn ping_marker() -> Seq<char> {
    "\"type\":\"PING\""@
}

/// The topic on which the feed reports the viewers of the channel `id`.
pub fn topic_of(id: &str) -> (topic: String)
    ensures
        topic@ == topic_for(id@),
{
    String::from_str("video-playback-by-id.").concat(id)
}

/// The channel that a topic speaks of is the one the topic was made for,
/// as long as its id holds no `.`.
pub proof fn lemma_topic_names_channel(id: Seq<char>)
    requires
        dotless(id),
    ensures
        last_segment(topic_for(id)) == id,
{
    reveal_strlit("video-playback-by-id.");
    lemma_last_segment_of_joined("video-playback-by-id."@, id);
}

/// What to send to the feed so that it reports on the eligible channels and
/// on no others. An empty list needs no message.
#[derive(Debug, PartialEq, Eq)]
pub struct FeedCommands {
    /// The topics to subscribe to, in one message.
    pub listen: Vec<String>,
    /// The topics to unsubscribe from, in one message.
    pub unlisten: Vec<String>,
}

/// What a text message of the feed holds, as far as the feed's logic reads
/// it.
#[derive(Debug, PartialEq, Eq)]
pub struct FeedMessage {
    /// Whether the text holds the keepalive marker.
    pub ping: bool,
    /// Whether the text is a JSON document.
    pub document: bool,
    /// Whether the document has a member `error`.
    pub error: bool,
    /// The string `data.topic` of the document, or the empty string.
    pub topic: String,
    /// Whether the string `data.message` of the document is itself a JSON
    /// document: the report.
    pub report: bool,
    /// The number `viewers` of the report, if it has one.
    pub viewers: Option<u64>,
}

/// A message in contracts.
pub struct MessageView {
    pub ping: bool,
    pub document: bool,
    pub error: bool,
    pub topic: Seq<char>,
    pub report: bool,
    pub viewers: Option<u64>,
}

impl View for FeedMessage {
    type V = MessageView;

    open spec fn view(&self) -> MessageView {
        MessageView {
            ping: self.ping,
            document: self.document,
            error: self.error,
            topic: self.topic@,
            report: self.report,
            viewers: self.viewers,
        }
    }
}

/// What a message of the feed calls for.
#[derive(Debug, PartialEq, Eq)]
pub struct FeedReaction {
    /// Whether the message is a keepalive that must be answered at once.
    pub pong: bool,
    /// The id of the channel to stop tracking, if the message names one.
    pub evict: Option<String>,
}

/// A reaction in contracts.
pub struct ReactionView {
    pub pong: bool,
    pub evict: Option<Seq<char>>,
}

impl View for FeedReaction {
    type V = ReactionView;

    open spec fn view(&self) -> ReactionView {
        ReactionView {
            pong: self.pong,
            evict: match self.evict {
                Some(id) => Some(id@),
                None => None,
            },
        }
    }
}

/// The id of the channel that a report on `topic` takes out of the set: the
/// channel that the topic names, unless the report counts at least one
/// viewer. A report without a count means that the channel is gone.
pub open spec fn evicted_by(topic: Seq<char>, viewers: Option<u64>) -> Option<Seq<char>> {
    match viewers {
        Some(n) if n > 0 => None,
        _ => Some(last_segment(topic)),
    }
}

/// What a message calls for. A keepalive is answered. A message that
/// reports an error, or that holds no report in the feed's format, takes no
/// channel out of the set; a report does as `evicted_by` says.
pub open spec fn reaction_to(m: MessageView) -> ReactionView {
    ReactionView {
        pong: m.ping,
        evict: if m.document && !m.error && m.report {
            evicted_by(m.topic, m.viewers)
        } else {
            None
        },
    }
}

/// The id of the channel that a report on `topic` with this viewer count
/// takes out of the set, if any.
pub fn classify_report(topic: &str, viewers: Option<u64>) -> (evict: Option<String>)
    ensures
        match evict {
            Some(id) => evicted_by(topic@, viewers) == Some(id@),
            None => evicted_by(topic@, viewers) is None,
        },
{
    match viewers {
        Some(n) if n > 0 => None,
        _ => Some(last_segment_of(topic)),
    }
}

/// What a message calls for.
pub fn react(message: &FeedMessage) -> (reaction: FeedReaction)
    ensures
        reaction@ == reaction_to(message@),
{
    let evict = if message.document && !message.error && message.report {
        classify_report(message.topic.as_str(), message.viewers)
    } else {
        None
    };
    FeedReaction { pong: message.ping, evict }
}

/// The string under `key` in `value`, or the empty string where there is no
/// value, no such member, or the member is no string.
pub open spec fn text_at(value: Option<serde_json::Value>, key: Seq<char>) -> Seq<char> {
    match value {
        Some(v) => match json_get(v, key) {
            Some(m) => match json_str(m) {
                Some(t) => t,
                None => Seq::empty(),
            },
            None => Seq::empty(),
        },
        None => Seq::empty(),
    }
}

/// The number `viewers` of a report, if the report is a document that has
/// one.
pub open spec fn viewers_of(report: Option<serde_json::Value>) -> Option<u64> {
    match report {
        Some(r) => match json_get(r, "viewers"@) {
            Some(count) => json_u64(count),
            None => None,
        },
        None => None,
    }
}

/// What a text message of the feed holds. The text holds the keepalive
/// marker or not. Where it is a JSON document, `error` says whether the
/// document has a member of that name, the topic is the string
/// `data.topic`, and the report is what the string `data.message` holds,
/// where that is a JSON document in turn.
pub open spec fn decoded(text: Seq<char>) -> MessageView {
    match json_doc(text) {
        Some(doc) => {
            let data = json_get(doc, "data"@);
            let report = json_doc(text_at(data, "message"@));
            MessageView {
                ping: occurs_in(text, ping_marker()),
                document: true,
                error: json_get(doc, "error"@) is Some,
                topic: text_at(data, "topic"@),
                report: report is Some,
                viewers: viewers_of(report),
            }
        },
        None => MessageView {
            ping: occurs_in(text, ping_marker()),
            document: false,
            error: false,
            topic: Seq::empty(),
            report: false,
            viewers: None,
        },
    }
}

/// Reads a text message of the feed with the JSON parser.
pub fn decode(text: &str) -> (message: FeedMessage)
    ensures
        message@ == decoded(text@),
{
    let ping = has_infix(text, "\"type\":\"PING\"");
    match parse_json(text) {
        Some(doc) => {
            let error = json_member(&doc, "error").is_some();
            let data = json_member(&doc, "data");
            let topic = member_text(data, "topic").to_owned();
            match parse_json(member_text(data, "message")) {
                Some(report) => {
                    let viewers = match json_member(&report, "viewers") {
                        Some(count) => json_number(count),
                        None => None,
                    };
                    FeedMessage { ping, document: true, error, topic, report: true, viewers }
                },
                None => FeedMessage {
                    ping,
                    document: true,
                    error,
                    topic,
                    report: false,
                    viewers: None,
                },
            }
        },
        None => FeedMessage {
            ping,
            document: false,
            error: false,
            topic: String::new(),
            report: false,
            viewers: None,
        },
    }
}

/// The string under `key` in `value`, or the empty string where there is
/// none.
fn member_text<'a>(value: Option<&'a serde_json::Value>, key: &str) -> (text: &'a str)
    ensures
        text@ == text_at(
            match value {
                Some(v) => Some(*v),
                None => None,
            },
            key@,
        ),
{
    let found = match value {
        Some(v) => match json_member(v, key) {
            Some(m) => json_text(m),
            None => None,
        },
        None => None,
    };
    text_or_empty(found)
}

/// The string that a lookup found, or the empty string where it found none.
fn text_or_empty<'a>(found: Option<&'a str>) -> (text: &'a str)
    ensures
        text@ == match found {
            Some(t) => t@,
            None => Seq::<char>::empty(),
        },
{
    match found {
        Some(t) => t,
        None => {
            proof {
                reveal_strlit("");
            }
            assert(""@ =~= Seq::<char>::empty());
            ""
        },
    }
}

/// The channels whose topics the feed has been asked to report on.
pub struct Subscriptions {
    sent: Vec<Channel>,
}

impl View for Subscriptions {
    type V = Seq<ChannelView>;

    closed spec fn view(&self) -> Seq<ChannelView> {
        channel_views(self.sent@)
    }
}

/// The subscriptions after they have been brought in line with the eligible
/// channels: those that are still eligible, then the new ones.
pub open spec fn synced(sent: Seq<ChannelView>, pool: Seq<ChannelView>) -> Seq<ChannelView> {
    sent.filter(member_of(pool)) + pool.filter(absent_from(sent))
}

/// After a sync the subscriptions are the eligible channels, each once.
pub proof fn lemma_synced_mirrors(sent: Seq<ChannelView>, pool: Seq<ChannelView>)
    requires
        sent.no_duplicates(),
        pool.no_duplicates(),
    ensures
        synced(sent, pool).no_duplicates(),
        forall|c: ChannelView| #[trigger] synced(sent, pool).contains(c) <==> pool.contains(c),
        synced(sent, pool).to_set() == pool.to_set(),
        synced(sent, pool).len() == pool.len(),
{
    let kept = sent.filter(member_of(pool));
    let fresh = pool.filter(absent_from(sent));
    let all = synced(sent, pool);
    lemma_filter_distinct(sent, member_of(pool));
    lemma_filter_distinct(pool, absent_from(sent));
    assert forall|i: int, j: int| 0 <= i < kept.len() && 0 <= j < fresh.len() implies kept[i]
        != fresh[j] by {
        assert(kept.contains(kept[i]));
        assert(fresh.contains(fresh[j]));
    }
    vstd::seq_lib::lemma_no_dup_in_concat(kept, fresh);
    assert forall|c: ChannelView| #[trigger] all.contains(c) <==> pool.contains(c) by {
        if all.contains(c) {
            let k = choose|k: int| 0 <= k < all.len() && all[k] == c;
            if k < kept.len() {
                assert(kept.contains(kept[k]));
            } else {
                assert(fresh.contains(fresh[k - kept.len()]));
            }
        }
        if pool.contains(c) {
            if sent.contains(c) {
                assert(kept.contains(c));
                let k = choose|k: int| 0 <= k < kept.len() && kept[k] == c;
                assert(all[k] == c);
            } else {
                assert(fresh.contains(c));
                let k = choose|k: int| 0 <= k < fresh.len() && fresh[k] == c;
                assert(all[kept.len() + k] == c);
            }
        }
    }
    assert(all.to_set() =~= pool.to_set());
    all.unique_seq_to_set();
    pool.unique_seq_to_set();
}

impl Subscriptions {
    /// No channel is subscribed to twice.
    pub open spec fn wf(&self) -> bool {
        self@.no_duplicates()
    }

    /// No subscriptions: the state of a new connection.
    pub fn new() -> (s: Subscriptions)
        ensures
            s@ == Seq::<ChannelView>::empty(),
            s.wf(),
    {
        let s = Subscriptions { sent: Vec::new() };
        assert(s@ =~= Seq::<ChannelView>::empty());
        s
    }

    /// How many channels are subscribed to.
    pub fn len(&self) -> (n: usize)
        ensures
            n == self@.len(),
    {
        self.sent.len()
    }

    /// Whether the channel is subscribed to.
    pub fn contains(&self, c: &Channel) -> (b: bool)
        ensures
            b == self@.contains(c@),
    {
        channels_contain(&self.sent, c)
    }

    /// Copies of the subscribed channels, in order.
    pub fn to_vec(&self) -> (v: Vec<Channel>)
        ensures
            channel_views(v@) == self@,
    {
        channels_copy(&self.sent)
    }

    /// Brings the subscriptions in line with the eligible channels. Returns
    /// the topics to subscribe to, those of the eligible channels that were
    /// not subscribed, and the topics to unsubscribe from, those of the
    /// subscribed channels that are no longer eligible.
    pub fn sync(&mut self, pool: &TrackedChannels) -> (commands: FeedCommands)
        requires
            old(self).wf(),
            pool.wf(),
        ensures
            final(self).wf(),
            final(self)@ == synced(old(self)@, pool@),
            final(self)@.to_set() == pool.members(),
            string_views(commands.listen@) == topics_for(pool@.filter(absent_from(old(self)@))),
            string_views(commands.unlisten@) == topics_for(
                old(self)@.filter(absent_from(pool@)),
            ),
    {
        let ghost before = self@;
        let eligible = pool.to_vec();
        let (mut kept, gone) = channels_split(&self.sent, &eligible);
        let (_, mut fresh) = channels_split(&eligible, &self.sent);
        let listen = topics_of(&fresh);
        let unlisten = topics_of(&gone);
        let ghost kept_views = channel_views(kept@);
        let ghost fresh_views = channel_views(fresh@);
        kept.append(&mut fresh);
        self.sent = kept;
        proof {
            assert(self@ =~= kept_views + fresh_views);
            lemma_synced_mirrors(before, pool@);
        }
        FeedCommands { listen, unlisten }
    }

    /// Takes every channel of this id out of the eligible channels and out
    /// of the subscriptions.
    pub fn evict(&mut self, pool: &mut TrackedChannels, id: &str)
        requires
            old(self).wf(),
            old(pool).wf(),
        ensures
            final(self).wf(),
            final(pool).wf(),
            final(self)@ == old(self)@.filter(other_id(id@)),
            final(pool)@ == old(pool)@.filter(other_id(id@)),
            !has_id(final(self)@, id@),
            !has_id(final(pool)@, id@),
    {
        proof {
            lemma_filter_distinct(self@, other_id(id@));
            lemma_filter_other_id(self@, id@);
        }
        pool.remove_id(id);
        self.sent = channels_without_id(&self.sent, id);
    }

    /// Acts on a message of the feed: takes every channel of the id that
    /// the message names, if it names one, out of the eligible channels and
    /// out of the subscriptions, and leaves both as they are otherwise.
    /// Returns what the message calls for.
    pub fn on_feed(&mut self, pool: &mut TrackedChannels, message: &FeedMessage) -> (reaction:
        FeedReaction)
        requires
            old(self).wf(),
            old(pool).wf(),
        ensures
            final(self).wf(),
            final(pool).wf(),
            reaction@ == reaction_to(message@),
            match reaction_to(message@).evict {
                Some(id) => final(self)@ == old(self)@.filter(other_id(id)) && final(pool)@ == old(
                    pool,
                )@.filter(other_id(id)) && !has_id(final(self)@, id) && !has_id(final(pool)@, id),
                None => final(self)@ == old(self)@ && final(pool)@ == old(pool)@,
            },
    {
        let reaction = react(message);
        if let Some(id) = &reaction.evict {
            self.evict(pool, id.as_str());
        }
        reaction
    }

    /// Acts on a text message of the feed: `on_feed` of what `decode` reads
    /// from it.
    pub fn on_message(&mut self, pool: &mut TrackedChannels, text: &str) -> (reaction:
        FeedReaction)
        requires
            old(self).wf(),
            old(pool).wf(),
        ensures
            final(self).wf(),
            final(pool).wf(),
            reaction@ == reaction_to(decoded(text@)),
            match reaction_to(decoded(text@)).evict {
                Some(id) => final(self)@ == old(self)@.filter(other_id(id)) && final(pool)@ == old(
                    pool,
                )@.filter(other_id(id)) && !has_id(final(self)@, id) && !has_id(final(pool)@, id),
                None => final(self)@ == old(self)@ && final(pool)@ == old(pool)@,
            },
    {
        let message = decode(text);
        self.on_feed(pool, &message)
    }
}

/// The topics of `channels`, in order.
pub fn topics_of(channels: &Vec<Channel>) -> (topics: Vec<String>)
    ensures
        string_views(topics@) == topics_for(channel_views(channels@)),
{
    let ghost views = channel_views(channels@);
    let mut topics: Vec<String> = Vec::new();
    let mut i: usize = 0;
    assert(string_views(topics@) =~= topics_for(views.take(0)));
    while i < channels.len()
        invariant
            i <= channels.len(),
            views == channel_views(channels@),
            string_views(topics@) == topics_for(views.take(i as int)),
        decreases channels.len() - i,
    {
        let ghost so_far = string_views(topics@);
        topics.push(topic_of(channels[i].channel_id.as_str()));
        assert(string_views(topics@) =~= so_far.push(topic_for(views[i as int].id)));
        assert(topics_for(views.take(i + 1)) =~= so_far.push(topic_for(views[i as int].id)));
        i += 1;
    }
    assert(views.take(i as int) =~= views);
    topics
}

/// A report of no viewers on the topic of a channel leaves that channel
/// neither among the eligible channels nor among the subscriptions.
pub proof fn lemma_zero_viewers_removes(
    sent: Seq<ChannelView>,
    pool: Seq<ChannelView>,
    c: ChannelView,
    m: MessageView,
)
    requires
        dotless(c.id),
        m.document,
        !m.error,
        m.report,
        m.topic == topic_for(c.id),
        m.viewers == Some(0u64),
    ensures
        reaction_to(m).evict == Some(c.id),
        !sent.filter(other_id(c.id)).contains(c),
        !pool.filter(other_id(c.id)).contains(c),
{
    lemma_topic_names_channel(c.id);
    lemma_filter_other_id(sent, c.id);
    lemma_filter_other_id(pool, c.id);
    let s = sent.filter(other_id(c.id));
    if s.contains(c) {
        let k = choose|k: int| 0 <= k < s.len() && s[k] == c;
        assert(s[k].id == c.id);
    }
    let t = pool.filter(other_id(c.id));
    if t.contains(c) {
        let k = choose|k: int| 0 <= k < t.len() && t[k] == c;
        assert(t[k].id == c.id);
    }
}

} // verus!
