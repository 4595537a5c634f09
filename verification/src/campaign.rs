//! The campaign controller: which campaigns belong to the chosen game, and
//! for the campaign at hand which drops are still to be earned.

use vstd::prelude::*;
use crate::claimed::{Claim, ClaimedDrops, claimed_by_any};
use crate::text::string_views;

verus! {

/// Seconds to pause after an event that names no drop.
pub const IDLE_WAIT: u64 = 10;

/// A campaign as the platform lists it.
#[derive(Debug, PartialEq, Eq)]
pub struct Campaign {
    pub id: String,
    pub game_id: String,
    pub game_name: String,
    pub status: String,
}

/// A campaign in contracts.
pub struct CampaignView {
    pub id: Seq<char>,
    pub game_id: Seq<char>,
    pub game_name: Seq<char>,
    pub status: Seq<char>,
}

impl View for Campaign {
    type V = CampaignView;

    open spec fn view(&self) -> CampaignView {
        CampaignView {
            id: self.id@,
            game_id: self.game_id@,
            game_name: self.game_name@,
            status: self.status@,
        }
    }
}

impl Clone for Campaign {
    fn clone(&self) -> (c: Campaign)
        ensures
            c@ == self@,
    {
        Campaign {
            id: self.id.clone(),
            game_id: self.game_id.clone(),
            game_name: self.game_name.clone(),
            status: self.status.clone(),
        }
    }
}

impl CampaignView {
    /// Whether the campaign is still running.
    pub open spec fn active(self) -> bool {
        self.status != "EXPIRED"@
    }
}

impl Campaign {
    /// Whether the campaign is over.
    pub fn is_expired(&self) -> (b: bool)
        ensures
            b == !self@.active(),
    {
        self.status == "EXPIRED".to_owned()
    }
}

/// The views of a run of campaigns, in order.
pub open spec fn campaign_views(s: Seq<Campaign>) -> Seq<CampaignView> {
    s.map_values(|c: Campaign| c@)
}

/// The games that have a running campaign, each once, in the order in
/// which the campaigns name them first.
pub open spec fn games_of(s: Seq<CampaignView>) -> Seq<Seq<char>>
    decreases s.len(),
{
    if s.len() == 0 {
        Seq::empty()
    } else {
        let rest = games_of(s.drop_last());
        if s.last().active() && !rest.contains(s.last().game_id) {
            rest.push(s.last().game_id)
        } else {
            rest
        }
    }
}

/// The test "is a running campaign of the game `game_id`".
pub open spec fn running_in(game_id: Seq<char>) -> spec_fn(CampaignView) -> bool {
    |c: CampaignView| c.active() && c.game_id == game_id
}

/// The ids of the games that have a running campaign, each once, in the
/// order in which the campaigns name them first.
pub fn games_on_offer(campaigns: &Vec<Campaign>) -> (games: Vec<String>)
    ensures
        string_views(games@) == games_of(campaign_views(campaigns@)),
{
    let ghost all = campaign_views(campaigns@);
    let mut games: Vec<String> = Vec::new();
    let mut i: usize = 0;
    assert(string_views(games@) =~= games_of(all.take(0)));
    while i < campaigns.len()
        invariant
            i <= campaigns.len(),
            all == campaign_views(campaigns@),
            string_views(games@) == games_of(all.take(i as int)),
        decreases campaigns.len() - i,
    {
        proof {
            assert(all.take(i + 1).drop_last() =~= all.take(i as int));
        }
        if !campaigns[i].is_expired() && !crate::text::strings_contain(
            &games,
            &campaigns[i].game_id,
        ) {
            let ghost so_far = string_views(games@);
            games.push(campaigns[i].game_id.clone());
            assert(string_views(games@) =~= so_far.push(all[i as int].game_id));
        }
        i += 1;
    }
    assert(all.take(i as int) =~= all);
    games
}

/// The running campaigns of a game, in the order of the listing.
pub fn campaigns_of_game(campaigns: &Vec<Campaign>, game_id: &str) -> (chosen: Vec<Campaign>)
    ensures
        campaign_views(chosen@) == campaign_views(campaigns@).filter(running_in(game_id@)),
{
    let ghost all = campaign_views(campaigns@);
    let ghost p = running_in(game_id@);
    let wanted = game_id.to_owned();
    let mut chosen: Vec<Campaign> = Vec::new();
    let mut i: usize = 0;
    proof {
        assert(all.take(0) =~= Seq::<CampaignView>::empty());
        assert(campaign_views(chosen@) =~= Seq::<CampaignView>::empty());
    }
    while i < campaigns.len()
        invariant
            i <= campaigns.len(),
            all == campaign_views(campaigns@),
            p == running_in(game_id@),
            wanted@ == game_id@,
            campaign_views(chosen@) == all.take(i as int).filter(p),
        decreases campaigns.len() - i,
    {
        proof {
            assert(all.take(i + 1) =~= all.take(i as int).push(all[i as int]));
            Seq::lemma_filter_push(all.take(i as int), all[i as int], p);
        }
        if !campaigns[i].is_expired() && campaigns[i].game_id == wanted {
            let ghost so_far = campaign_views(chosen@);
            chosen.push(campaigns[i].clone());
            assert(campaign_views(chosen@) =~= so_far.push(all[i as int]));
        }
        i += 1;
    }
    assert(all.take(i as int) =~= all);
    chosen
}

/// The test "no account has claimed this drop".
pub open spec fn unclaimed(claims: Set<Claim>) -> spec_fn(Seq<char>) -> bool {
    |drop_id: Seq<char>| !claimed_by_any(claims, drop_id)
}

/// The first position of `x` in `s`, or the length of `s` where it does
/// not occur.
pub open spec fn position_of(s: Seq<Seq<char>>, x: Seq<char>) -> int
    decreases s.len(),
{
    if s.len() == 0 {
        0
    } else if s[0] == x {
        0
    } else {
        1 + position_of(s.drop_first(), x)
    }
}

/// `s` without the first occurrence of `x`.
pub open spec fn without_first(s: Seq<Seq<char>>, x: Seq<char>) -> Seq<Seq<char>> {
    if position_of(s, x) < s.len() {
        s.remove(position_of(s, x))
    } else {
        s
    }
}

/// The first position of `x` is the one before which `x` does not occur
/// and at which it does, or the length of `s`.
pub proof fn lemma_position_of(s: Seq<Seq<char>>, x: Seq<char>, at: int)
    requires
        0 <= at <= s.len(),
        forall|j: int| 0 <= j < at ==> s[j] != x,
        at < s.len() ==> s[at] == x,
    ensures
        position_of(s, x) == at,
    decreases s.len(),
{
    if s.len() > 0 && at > 0 {
        let rest = s.drop_first();
        assert forall|j: int| 0 <= j < at - 1 implies rest[j] != x by {
            assert(rest[j] == s[j + 1]);
        }
        lemma_position_of(rest, x, at - 1);
    }
}

/// What the controller does after an event.
#[derive(Debug, Clone, Copy, PartialEq, Eq, Structural)]
pub enum ControllerAction {
    /// The event names no drop: nothing is being watched. Pause, then wait
    /// for the next event.
    Idle { wait_secs: u64 },
    /// Drops are left to earn: wait for the next event.
    Wait,
    /// No drop is left to earn: go on to the next campaign.
    Advance,
}

/// The working set and the action after the event that `event` was
/// claimed. An event without a drop changes nothing. Else the drop leaves
/// the working set, and the campaign is done once the set is empty.
pub open spec fn after_claimed(drops: Seq<Seq<char>>, event: Seq<char>) -> (
    Seq<Seq<char>>,
    ControllerAction,
) {
    if event.len() == 0 {
        (drops, ControllerAction::Idle { wait_secs: IDLE_WAIT })
    } else {
        let rest = without_first(drops, event);
        (
            rest,
            if rest.len() == 0 {
                ControllerAction::Advance
            } else {
                ControllerAction::Wait
            },
        )
    }
}

/// The drops of the campaign at hand that are still to be earned.
#[derive(Debug)]
pub struct WorkingSet {
    drops: Vec<String>,
}

impl View for WorkingSet {
    type V = Seq<Seq<char>>;

    closed spec fn view(&self) -> Seq<Seq<char>> {
        string_views(self.drops@)
    }
}

impl WorkingSet {
    /// The working set of a campaign with these drops: those that no
    /// account has claimed, in order.
    pub fn start(drops: &Vec<String>, cache: &ClaimedDrops) -> (ws: WorkingSet)
        ensures
            ws@ == string_views(drops@).filter(unclaimed(cache@)),
    {
        let ghost all = string_views(drops@);
        let ghost p = unclaimed(cache@);
        let mut kept: Vec<String> = Vec::new();
        let mut i: usize = 0;
        proof {
            assert(all.take(0) =~= Seq::<Seq<char>>::empty());
            assert(string_views(kept@) =~= Seq::<Seq<char>>::empty());
        }
        while i < drops.len()
            invariant
                i <= drops.len(),
                all == string_views(drops@),
                p == unclaimed(cache@),
                string_views(kept@) == all.take(i as int).filter(p),
            decreases drops.len() - i,
        {
            proof {
                assert(all.take(i + 1) =~= all.take(i as int).push(all[i as int]));
                Seq::lemma_filter_push(all.take(i as int), all[i as int], p);
            }
            if !cache.contains_any(drops[i].as_str()) {
                let ghost so_far = string_views(kept@);
                kept.push(drops[i].clone());
                assert(string_views(kept@) =~= so_far.push(all[i as int]));
            }
            i += 1;
        }
        assert(all.take(i as int) =~= all);
        WorkingSet { drops: kept }
    }

    /// How many drops are left to earn.
    pub fn len(&self) -> (n: usize)
        ensures
            n == self@.len(),
    {
        self.drops.len()
    }

    /// Copies of the drops that are left to earn, in order.
    pub fn to_vec(&self) -> (v: Vec<String>)
        ensures
            string_views(v@) == self@,
    {
        let mut v: Vec<String> = Vec::new();
        let mut i: usize = 0;
        assert(string_views(v@) =~= self@.take(0));
        while i < self.drops.len()
            invariant
                i <= self.drops.len(),
                string_views(v@) == self@.take(i as int),
            decreases self.drops.len() - i,
        {
            let ghost so_far = string_views(v@);
            v.push(self.drops[i].clone());
            assert(string_views(v@) =~= so_far.push(self@[i as int]));
            assert(self@.take(i + 1) =~= so_far.push(self@[i as int]));
            i += 1;
        }
        assert(self@.take(i as int) =~= self@);
        v
    }

    /// Takes the event that the drop `event` was claimed.
    pub fn on_claimed(&mut self, event: &str) -> (action: ControllerAction)
        ensures
            (final(self)@, action) == after_claimed(old(self)@, event@),
    {
        if event.unicode_len() == 0 {
            return ControllerAction::Idle { wait_secs: IDLE_WAIT };
        }
        let ghost before = self@;
        let wanted = event.to_owned();
        let mut i: usize = 0;
        while i < self.drops.len()
            invariant
                i <= self.drops.len(),
                self@ == before,
                wanted@ == event@,
                forall|j: int| 0 <= j < i ==> before[j] != event@,
            ensures
                i <= self.drops.len(),
                i < self.drops.len() ==> before[i as int] == event@,
            decreases self.drops.len() - i,
        {
            if self.drops[i] == wanted {
                assert(before[i as int] == event@);
                break ;
            }
            i += 1;
        }
        proof {
            lemma_position_of(before, event@, i as int);
        }
        if i < self.drops.len() {
            self.drops.remove(i);
            assert(self@ =~= before.remove(i as int));
        }
        if self.drops.len() == 0 {
            ControllerAction::Advance
        } else {
            ControllerAction::Wait
        }
    }
}

} // verus!
