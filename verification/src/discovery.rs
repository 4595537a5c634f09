//! Channel discovery: filling the set of eligible channels from the
//! candidates of a campaign, up to its capacity.
//!
//! A campaign names its candidates either by an allow-list or by the live
//! directory of its game. A candidate is added when it is live and has
//! drops to claim. Both facts come from the platform, one request each, so a
//! scan is a small machine: it says which question to ask next, takes the
//! answer, and stops asking once the set is full.

use vstd::prelude::*;
use crate::channel::{Channel, ChannelView, channel_views, channels_copy};
use crate::registry::{ChannelLists, TrackedChannels, MAX_TOPICS, inserted};

verus! {

/// How many channels of a live directory are asked for.
pub const DIRECTORY_LIMIT: u64 = 30;

/// The set after one candidate has been judged: the candidate is added when
/// it is live, has drops, is not in the set yet, and the set has room.
pub open spec fn enroll(pool: Seq<ChannelView>, c: ChannelView, live: bool, has_drops: bool) -> Seq<
    ChannelView,
> {
    if live && has_drops {
        inserted(pool, c)
    } else {
        pool
    }
}

/// The set after a run of candidates has been judged, in order.
pub open spec fn enroll_all(pool: Seq<ChannelView>, probes: Seq<ProbeView>) -> Seq<
    ChannelView,
>
    decreases probes.len(),
{
    if probes.len() == 0 {
        pool
    } else {
        let p = probes.last();
        enroll(enroll_all(pool, probes.drop_last()), p.channel, p.live, p.has_drops)
    }
}

/// A candidate together with what the platform said of it.
#[derive(Debug, PartialEq, Eq)]
pub struct Probe {
    pub channel: Channel,
    pub live: bool,
    pub has_drops: bool,
}

/// A probe in contracts.
pub struct ProbeView {
    pub channel: ChannelView,
    pub live: bool,
    pub has_drops: bool,
}

impl View for Probe {
    type V = ProbeView;

    open spec fn view(&self) -> ProbeView {
        ProbeView { channel: self.channel@, live: self.live, has_drops: self.has_drops }
    }
}

/// The views of a run of probes, in order.
pub open spec fn probe_views(s: Seq<Probe>) -> Seq<ProbeView> {
    s.map_values(|p: Probe| p@)
}

/// What a scan asks for next.
#[derive(Debug, PartialEq, Eq)]
pub enum ScanAction {
    /// Ask the platform whether this channel is live.
    CheckLive(Channel),
    /// Ask the platform whether this channel has drops to claim.
    CheckDrops(Channel),
    /// Nothing is left to ask: the candidates are exhausted or the set is full.
    Done,
}

/// The state of a scan in contracts.
pub struct ScanView {
    /// The candidates, in the order in which they are judged.
    pub candidates: Seq<ChannelView>,
    /// Whether every candidate is known to be live beforehand.
    pub known_live: bool,
    /// How many candidates have been judged.
    pub cursor: nat,
    /// Whether the candidate under the cursor has been found live.
    pub confirmed: bool,
}

impl ScanView {
    /// Whether a candidate is left to judge.
    pub open spec fn pending(self) -> bool {
        self.cursor < self.candidates.len()
    }

    /// Whether the next question about the pending candidate is about drops.
    pub open spec fn live_settled(self) -> bool {
        self.known_live || self.confirmed
    }

    /// The scan with the pending candidate left behind.
    pub open spec fn advanced(self) -> ScanView {
        ScanView { cursor: self.cursor + 1, confirmed: false, ..self }
    }
}

/// The scan and the set after an answer. `None` changes nothing. An answer
/// to the liveness question either settles it or drops the candidate. An
/// answer to the drops question adds the candidate or drops it.
pub open spec fn scan_apply(s: ScanView, pool: Seq<ChannelView>, answer: Option<bool>) -> (
    ScanView,
    Seq<ChannelView>,
) {
    match answer {
        None => (s, pool),
        Some(yes) => {
            if !s.pending() {
                (s, pool)
            } else if !s.live_settled() {
                if yes {
                    (ScanView { confirmed: true, ..s }, pool)
                } else {
                    (s.advanced(), pool)
                }
            } else {
                (s.advanced(), enroll(pool, s.candidates[s.cursor as int], true, yes))
            }
        },
    }
}

/// Whether `action` is what the scan asks for in state `s` with the set
/// `pool`.
pub open spec fn scan_asks(s: ScanView, pool: Seq<ChannelView>, action: ScanAction) -> bool {
    match action {
        ScanAction::Done => !s.pending() || pool.len() >= MAX_TOPICS,
        ScanAction::CheckLive(c) => s.pending() && pool.len() < MAX_TOPICS && !s.live_settled()
            && c@ == s.candidates[s.cursor as int],
        ScanAction::CheckDrops(c) => s.pending() && pool.len() < MAX_TOPICS && s.live_settled()
            && c@ == s.candidates[s.cursor as int],
    }
}

/// A scan over the candidates of one campaign.
pub struct Scan {
    candidates: Vec<Channel>,
    known_live: bool,
    cursor: usize,
    confirmed: bool,
}

impl View for Scan {
    type V = ScanView;

    closed spec fn view(&self) -> ScanView {
        ScanView {
            candidates: channel_views(self.candidates@),
            known_live: self.known_live,
            cursor: self.cursor as nat,
            confirmed: self.confirmed,
        }
    }
}

impl Scan {
    /// The cursor is within the candidates.
    pub open spec fn wf(&self) -> bool {
        self@.cursor <= self@.candidates.len()
    }

    /// A scan that has judged none of `candidates` yet. With `known_live`
    /// the candidates come from a listing of live channels, and only the
    /// drops question is asked.
    pub fn new(candidates: Vec<Channel>, known_live: bool) -> (s: Scan)
        ensures
            s.wf(),
            s@ == (ScanView {
                candidates: channel_views(candidates@),
                known_live,
                cursor: 0,
                confirmed: false,
            }),
    {
        Scan { candidates, known_live, cursor: 0, confirmed: false }
    }

    /// How many candidates have been judged.
    pub fn judged(&self) -> (n: usize)
        ensures
            n == self@.cursor,
    {
        self.cursor
    }

    /// Takes the answer to the question asked last, if one was asked, and
    /// returns the next question.
    pub fn step(&mut self, answer: Option<bool>, pool: &mut TrackedChannels) -> (action: ScanAction)
        requires
            old(self).wf(),
            old(pool).wf(),
        ensures
            final(self).wf(),
            final(pool).wf(),
            (final(self)@, final(pool)@) == scan_apply(old(self)@, old(pool)@, answer),
            scan_asks(final(self)@, final(pool)@, action),
    {
        if let Some(yes) = answer {
            if self.cursor < self.candidates.len() {
                if !(self.known_live || self.confirmed) {
                    if yes {
                        self.confirmed = true;
                    } else {
                        self.cursor += 1;
                    }
                } else {
                    if yes {
                        pool.insert(self.candidates[self.cursor].clone());
                    }
                    self.cursor += 1;
                    self.confirmed = false;
                }
            }
        }
        if self.cursor >= self.candidates.len() || pool.is_full() {
            ScanAction::Done
        } else if !(self.known_live || self.confirmed) {
            ScanAction::CheckLive(self.candidates[self.cursor].clone())
        } else {
            ScanAction::CheckDrops(self.candidates[self.cursor].clone())
        }
    }
}

/// What the platform lists as the candidates of a campaign.
#[derive(Debug, PartialEq, Eq)]
pub enum Listing {
    /// The allow-list of the campaign.
    AllowList(Vec<Channel>),
    /// The live directory of the campaign's game, for a campaign without an
    /// allow-list.
    Directory(Vec<Channel>),
}

impl Listing {
    /// The channels listed, in order.
    pub open spec fn channels(self) -> Seq<ChannelView> {
        match self {
            Listing::AllowList(channels) => channel_views(channels@),
            Listing::Directory(channels) => channel_views(channels@),
        }
    }

    /// Whether the channels listed count as live without being asked for:
    /// those of a directory do in the refill, where the directory has just
    /// been fetched as a listing of live channels. In the first pass, and
    /// for an allow-list always, each channel is asked for.
    pub open spec fn known_live(self, refill: bool) -> bool {
        self is Directory && refill
    }
}

/// Records the listing of a campaign and starts a scan over it. An
/// allow-list goes to the cache of allow-lists, a directory to the cache of
/// directories, whole and whether or not any of its channels is live; the
/// other cache stays as it is.
pub fn begin_scan(
    allow: &mut ChannelLists,
    directories: &mut ChannelLists,
    campaign_id: &str,
    listing: Listing,
    refill: bool,
) -> (scan: Scan)
    requires
        old(allow).wf(),
        old(directories).wf(),
    ensures
        final(allow).wf(),
        final(directories).wf(),
        match listing {
            Listing::AllowList(_) => final(allow)@ == old(allow)@.insert(
                campaign_id@,
                listing.channels(),
            ) && final(directories)@ == old(directories)@,
            Listing::Directory(_) => final(directories)@ == old(directories)@.insert(
                campaign_id@,
                listing.channels(),
            ) && final(allow)@ == old(allow)@,
        },
        scan.wf(),
        scan@ == (ScanView {
            candidates: listing.channels(),
            known_live: listing.known_live(refill),
            cursor: 0,
            confirmed: false,
        }),
{
    match listing {
        Listing::AllowList(channels) => {
            allow.insert(campaign_id, channels_copy(&channels));
            Scan::new(channels, false)
        },
        Listing::Directory(channels) => {
            directories.insert(campaign_id, channels_copy(&channels));
            Scan::new(channels, refill)
        },
    }
}

/// Once the set is full, judging more candidates changes nothing.
pub proof fn lemma_enroll_all_full(
    pool: Seq<ChannelView>,
    probes: Seq<ProbeView>,
    k: int,
)
    requires
        0 <= k <= probes.len(),
        enroll_all(pool, probes.take(k)).len() >= MAX_TOPICS,
    ensures
        enroll_all(pool, probes) == enroll_all(pool, probes.take(k)),
    decreases probes.len() - k,
{
    if k == probes.len() {
        assert(probes.take(k) =~= probes);
    } else {
        assert(probes.take(k + 1).drop_last() =~= probes.take(k));
        lemma_enroll_all_full(pool, probes, k + 1);
    }
}

/// Judging candidates never takes a channel out of the set, keeps it free of
/// repetitions, and never lets it grow beyond its capacity.
pub proof fn lemma_enroll_all_bounded(pool: Seq<ChannelView>, probes: Seq<ProbeView>)
    requires
        pool.no_duplicates(),
        pool.len() <= MAX_TOPICS,
    ensures
        enroll_all(pool, probes).no_duplicates(),
        enroll_all(pool, probes).len() <= MAX_TOPICS,
        pool.len() <= enroll_all(pool, probes).len(),
        forall|c: ChannelView| pool.contains(c) ==> #[trigger] enroll_all(pool, probes).contains(c),
    decreases probes.len(),
{
    if probes.len() > 0 {
        lemma_enroll_all_bounded(pool, probes.drop_last());
        let before = enroll_all(pool, probes.drop_last());
        let after = enroll_all(pool, probes);
        assert forall|c: ChannelView| pool.contains(c) implies #[trigger] after.contains(c) by {
            assert(before.contains(c));
            let k = choose|k: int| 0 <= k < before.len() && before[k] == c;
            assert(after[k] == c);
        }
    }
}

/// Judges a run of candidates whose answers are known, in order, and adds
/// to the set those that are live and have drops, until the set is full.
pub fn filter_streams(pool: &mut TrackedChannels, probes: &Vec<Probe>)
    requires
        old(pool).wf(),
    ensures
        final(pool).wf(),
        final(pool)@ == enroll_all(old(pool)@, probe_views(probes@)),
{
    let ghost pool0 = pool@;
    let ghost all = probe_views(probes@);
    let mut candidates: Vec<Channel> = Vec::new();
    let mut i: usize = 0;
    assert(channel_views(candidates@) =~= all.take(0).map_values(|p: ProbeView| p.channel));
    while i < probes.len()
        invariant
            i <= probes.len(),
            all == probe_views(probes@),
            channel_views(candidates@) == all.take(i as int).map_values(
                |p: ProbeView| p.channel,
            ),
        decreases probes.len() - i,
    {
        let ghost so_far = channel_views(candidates@);
        candidates.push(probes[i].channel.clone());
        assert(channel_views(candidates@) =~= so_far.push(all[i as int].channel));
        assert(all.take(i + 1).map_values(|p: ProbeView| p.channel) =~= so_far.push(
            all[i as int].channel,
        ));
        i += 1;
    }
    assert(all.take(i as int) =~= all);
    let mut scan = Scan::new(candidates, false);
    assert(all.take(0) =~= Seq::<ProbeView>::empty());
    let mut action = scan.step(None, pool);
    loop
        invariant
            scan.wf(),
            pool.wf(),
            all == probe_views(probes@),
            scan@.candidates == all.map_values(|p: ProbeView| p.channel),
            !scan@.known_live,
            scan@.confirmed ==> scan@.pending() && all[scan@.cursor as int].live,
            pool@ == enroll_all(pool0, all.take(scan@.cursor as int)),
            scan_asks(scan@, pool@, action),
        ensures
            pool.wf(),
            pool@ == enroll_all(pool0, all),
        decreases 2 * (all.len() - scan@.cursor) - (if scan@.confirmed { 1int } else { 0int }),
    {
        let at = scan.judged();
        let ghost k = at as int;
        match action {
            ScanAction::Done => {
                proof {
                    if scan@.pending() {
                        lemma_enroll_all_full(pool0, all, k);
                    } else {
                        assert(all.take(k) =~= all);
                    }
                }
                break ;
            },
            ScanAction::CheckLive(_) => {
                proof {
                    assert(all.take(k + 1).drop_last() =~= all.take(k));
                }
                action = scan.step(Some(probes[at].live), pool);
            },
            ScanAction::CheckDrops(_) => {
                proof {
                    assert(all.take(k + 1).drop_last() =~= all.take(k));
                }
                action = scan.step(Some(probes[at].has_drops), pool);
            },
        }
    }
}

} // verus!
