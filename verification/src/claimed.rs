//! The cache of claimed drops: which account has claimed which drop. It is
//! what keeps a drop from being claimed twice, so it only grows.

use vstd::prelude::*;
use crate::json::{cache_parsed, cache_rendered, parse_cache, render_cache};
use crate::text::{string_views, strings_contain};

verus! {

/// The entries of a cache in contracts: accounts, each with its drops.
pub type CacheEntries = Seq<(Seq<char>, Seq<Seq<char>>)>;

/// A claim in contracts: the account and the drop.
pub type Claim = (Seq<char>, Seq<char>);

/// The views of a run of entries, in order.
pub open spec fn entry_views(s: Seq<(String, Vec<String>)>) -> CacheEntries {
    s.map_values(|e: (String, Vec<String>)| (e.0@, string_views(e.1@)))
}

/// Whether the `i`-th entry records the claim.
pub open spec fn entry_holds(entries: CacheEntries, i: int, claim: Claim) -> bool {
    0 <= i < entries.len() && entries[i].0 == claim.0 && entries[i].1.contains(claim.1)
}

/// The claims that a run of entries records.
pub open spec fn claims_of(entries: CacheEntries) -> Set<Claim> {
    Set::new(|claim: Claim| exists|i: int| entry_holds(entries, i, claim))
}

/// Whether no account has two entries and no entry names a drop twice.
pub open spec fn entries_wf(entries: CacheEntries) -> bool {
    &&& forall|i: int, j: int| 0 <= i < j < entries.len() ==> entries[i].0 != entries[j].0
    &&& forall|i: int| 0 <= i < entries.len() ==> (#[trigger] entries[i]).1.no_duplicates()
}

/// The position of the first entry of the account, or the number of
/// entries where it has none.
pub open spec fn account_at(entries: CacheEntries, account: Seq<char>) -> int
    decreases entries.len(),
{
    if entries.len() == 0 {
        0
    } else if entries[0].0 == account {
        0
    } else {
        1 + account_at(entries.drop_first(), account)
    }
}

/// The position of an account is the one before which the account has no
/// entry and at which it has one, or the number of entries.
pub proof fn lemma_account_at(entries: CacheEntries, account: Seq<char>, at: int)
    requires
        0 <= at <= entries.len(),
        forall|j: int| 0 <= j < at ==> (#[trigger] entries[j]).0 != account,
        at < entries.len() ==> entries[at].0 == account,
    ensures
        account_at(entries, account) == at,
    decreases entries.len(),
{
    if entries.len() > 0 && at > 0 {
        let rest = entries.drop_first();
        assert(entries[0].0 != account);
        assert forall|j: int| 0 <= j < at - 1 implies (#[trigger] rest[j]).0 != account by {
            assert(rest[j] == entries[j + 1]);
        }
        lemma_account_at(rest, account, at - 1);
    }
}

/// The entries after a claim has been recorded: a claim that is there
/// changes nothing; a new drop of an account that has an entry is put at
/// the end of that entry; the first drop of an account makes a new entry
/// at the end.
pub open spec fn recorded(entries: CacheEntries, claim: Claim) -> CacheEntries {
    let at = account_at(entries, claim.0);
    if at < entries.len() {
        if entries[at].1.contains(claim.1) {
            entries
        } else {
            entries.update(at, (claim.0, entries[at].1.push(claim.1)))
        }
    } else {
        entries.push((claim.0, seq![claim.1]))
    }
}

/// Whether some account has claimed the drop.
pub open spec fn claimed_by_any(claims: Set<Claim>, drop_id: Seq<char>) -> bool {
    exists|account: Seq<char>| claims.contains((account, drop_id))
}

/// The claimed drops of every account.
pub struct ClaimedDrops {
    entries: Vec<(String, Vec<String>)>,
}

impl View for ClaimedDrops {
    type V = Set<Claim>;

    closed spec fn view(&self) -> Set<Claim> {
        claims_of(entry_views(self.entries@))
    }
}

impl ClaimedDrops {
    /// The entries of the cache, in the order in which it holds them.
    pub closed spec fn entries(&self) -> CacheEntries {
        entry_views(self.entries@)
    }

    /// No account has two entries, and no entry names a drop twice.
    pub open spec fn wf(&self) -> bool {
        entries_wf(self.entries())
    }

    /// The cache holds the claims that its entries record.
    pub proof fn lemma_entries(&self)
        ensures
            self@ == claims_of(self.entries()),
    {
    }

    /// The cache without any entry, and so without any claim.
    pub fn new() -> (c: ClaimedDrops)
        ensures
            c.wf(),
            c.entries() == Seq::<(Seq<char>, Seq<Seq<char>>)>::empty(),
            c@ == Set::<Claim>::empty(),
    {
        let c = ClaimedDrops { entries: Vec::new() };
        assert(c.entries() =~= Seq::<(Seq<char>, Seq<Seq<char>>)>::empty());
        assert(c@ =~= Set::<Claim>::empty()) by {
            assert forall|claim: Claim| !c@.contains(claim) by {
                if c@.contains(claim) {
                    let i = choose|i: int| entry_holds(entry_views(c.entries@), i, claim);
                    assert(entry_holds(entry_views(c.entries@), i, claim));
                }
            }
        }
        c
    }

    /// The position of the first entry of the account, or the number of
    /// entries where it has none.
    fn position(&self, account: &String) -> (at: usize)
        ensures
            at <= self.entries@.len(),
            at < self.entries@.len() ==> self.entries@[at as int].0@ == account@,
            forall|j: int| 0 <= j < at ==> (#[trigger] self.entries@[j]).0@ != account@,
    {
        let mut i: usize = 0;
        while i < self.entries.len()
            invariant
                i <= self.entries.len(),
                forall|j: int| 0 <= j < i ==> (#[trigger] self.entries@[j]).0@ != account@,
            decreases self.entries.len() - i,
        {
            if self.entries[i].0 == *account {
                return i;
            }
            i += 1;
        }
        i
    }

    /// Whether the account has claimed the drop.
    pub fn contains(&self, account: &str, drop_id: &str) -> (b: bool)
        ensures
            b == self@.contains((account@, drop_id@)),
    {
        let wanted_account = account.to_owned();
        let wanted_drop = drop_id.to_owned();
        let ghost claim = (account@, drop_id@);
        let ghost all = entry_views(self.entries@);
        let mut i: usize = 0;
        while i < self.entries.len()
            invariant
                i <= self.entries.len(),
                all == entry_views(self.entries@),
                claim == (account@, drop_id@),
                claim == (wanted_account@, wanted_drop@),
                forall|j: int| 0 <= j < i ==> !entry_holds(all, j, claim),
            decreases self.entries.len() - i,
        {
            if self.entries[i].0 == wanted_account && strings_contain(
                &self.entries[i].1,
                &wanted_drop,
            ) {
                assert(entry_holds(all, i as int, claim));
                return true;
            }
            i += 1;
        }
        assert(!self@.contains(claim)) by {
            if self@.contains(claim) {
                let k = choose|k: int| entry_holds(all, k, claim);
                assert(entry_holds(all, k, claim));
            }
        }
        false
    }

    /// Whether any account has claimed the drop.
    pub fn contains_any(&self, drop_id: &str) -> (b: bool)
        ensures
            b == claimed_by_any(self@, drop_id@),
    {
        let wanted = drop_id.to_owned();
        let ghost all = entry_views(self.entries@);
        let mut i: usize = 0;
        while i < self.entries.len()
            invariant
                i <= self.entries.len(),
                all == entry_views(self.entries@),
                wanted@ == drop_id@,
                forall|j: int| 0 <= j < i ==> !(#[trigger] all[j]).1.contains(drop_id@),
            decreases self.entries.len() - i,
        {
            if strings_contain(&self.entries[i].1, &wanted) {
                assert(entry_holds(all, i as int, (all[i as int].0, drop_id@)));
                assert(self@.contains((all[i as int].0, drop_id@)));
                return true;
            }
            i += 1;
        }
        assert(!claimed_by_any(self@, drop_id@)) by {
            if claimed_by_any(self@, drop_id@) {
                let a = choose|a: Seq<char>| self@.contains((a, drop_id@));
                let k = choose|k: int| entry_holds(all, k, (a, drop_id@));
                assert(entry_holds(all, k, (a, drop_id@)));
                assert(all[k].1.contains(drop_id@));
            }
        }
        false
    }

    /// Records that the account has claimed the drop. Returns whether that
    /// was not recorded before. Nothing is ever taken out of the cache.
    pub fn record(&mut self, account: &str, drop_id: &str) -> (added: bool)
        requires
            old(self).wf(),
        ensures
            final(self).wf(),
            final(self).entries() == recorded(old(self).entries(), (account@, drop_id@)),
            final(self)@ == old(self)@.insert((account@, drop_id@)),
            old(self)@.subset_of(final(self)@),
            added == !old(self)@.contains((account@, drop_id@)),
    {
        let ghost before = entry_views(self.entries@);
        let ghost claim = (account@, drop_id@);
        let owner = account.to_owned();
        let wanted = drop_id.to_owned();
        let at = self.position(&owner);
        proof {
            lemma_account_at(before, claim.0, at as int);
        }
        if at < self.entries.len() && strings_contain(&self.entries[at].1, &wanted) {
            assert(entry_holds(before, at as int, claim));
            assert(self@ =~= self@.insert(claim));
            return false;
        }
        assert(!claims_of(before).contains(claim)) by {
            if claims_of(before).contains(claim) {
                let k = choose|k: int| entry_holds(before, k, claim);
                assert(entry_holds(before, k, claim));
                if k < at {
                    assert(before[k].0 != claim.0);
                } else if at < k {
                    assert(before[at as int].0 != before[k].0);
                }
            }
        }
        if at < self.entries.len() {
            let mut entry = self.entries.remove(at);
            entry.1.push(wanted);
            self.entries.insert(at, entry);
        } else {
            let mut drops: Vec<String> = Vec::new();
            drops.push(wanted);
            self.entries.push((owner, drops));
        }
        let ghost after = entry_views(self.entries@);
        proof {
            assert(after.len() == if at < before.len() { before.len() } else { before.len() + 1 });
            assert(forall|j: int| 0 <= j < before.len() && j != at ==> after[j] == before[j]);
            if at < before.len() {
                assert(after[at as int].0 == before[at as int].0);
                assert(after[at as int].1 =~= before[at as int].1.push(drop_id@));
                assert(after =~= before.update(
                    at as int,
                    (claim.0, before[at as int].1.push(claim.1)),
                ));
                assert(after[at as int].1.no_duplicates()) by {
                    let old_drops = before[at as int].1;
                    let new_drops = after[at as int].1;
                    assert(old_drops.no_duplicates());
                    assert forall|i: int, j: int|
                        0 <= i < new_drops.len() && 0 <= j < new_drops.len() && i != j implies new_drops[i]
                        != new_drops[j] by {
                        if i == new_drops.len() - 1 {
                            assert(old_drops[j] == new_drops[j]);
                            assert(old_drops.contains(old_drops[j]));
                        } else if j == new_drops.len() - 1 {
                            assert(old_drops[i] == new_drops[i]);
                            assert(old_drops.contains(old_drops[i]));
                        } else {
                            assert(old_drops[i] == new_drops[i]);
                            assert(old_drops[j] == new_drops[j]);
                        }
                    }
                }
            } else {
                assert(after[at as int].0 == claim.0);
                assert(after[at as int].1 =~= seq![drop_id@]);
                assert(after =~= before.push((claim.0, seq![claim.1])));
            }
            assert(entries_wf(after)) by {
                assert forall|i: int, j: int| 0 <= i < j < after.len() implies after[i].0
                    != after[j].0 by {
                    if j == at && at == before.len() {
                        assert(before[i].0 != claim.0);
                    }
                }
                assert forall|i: int| 0 <= i < after.len() implies (#[trigger] after[i]).1.no_duplicates() by {
                    if i != at {
                        assert(after[i] == before[i]);
                    }
                }
            }
            assert(after[at as int].1.last() == drop_id@);
            assert forall|c: Claim| #[trigger]
                claims_of(after).contains(c) <==> claims_of(before).insert(claim).contains(c) by {
                if claims_of(after).contains(c) {
                    let k = choose|k: int| entry_holds(after, k, c);
                    assert(entry_holds(after, k, c));
                    if k != at {
                        assert(entry_holds(before, k, c));
                    } else if c != claim {
                        let m = choose|m: int|
                            0 <= m < after[k].1.len() && after[k].1[m] == c.1;
                        assert(at < before.len());
                        assert(before[k].1[m] == c.1);
                        assert(entry_holds(before, k, c));
                    }
                }
                if claims_of(before).contains(c) {
                    let k = choose|k: int| entry_holds(before, k, c);
                    assert(entry_holds(before, k, c));
                    if k == at {
                        let m = choose|m: int|
                            0 <= m < before[k].1.len() && before[k].1[m] == c.1;
                        assert(after[k].1[m] == c.1);
                    }
                    assert(entry_holds(after, k, c));
                }
                if c == claim {
                    assert(entry_holds(after, at as int, c));
                }
            }
            assert(self@ =~= claims_of(before).insert(claim));
        }
        true
    }

    /// Records a claim and returns the text that the file of the cache is
    /// to hold from now on: the whole cache, written anew after every
    /// change.
    pub fn record_and_write(&mut self, account: &str, drop_id: &str) -> (text: Option<String>)
        requires
            old(self).wf(),
        ensures
            final(self).wf(),
            final(self).entries() == recorded(old(self).entries(), (account@, drop_id@)),
            final(self)@ == old(self)@.insert((account@, drop_id@)),
            old(self)@.subset_of(final(self)@),
            match text {
                Some(t) => cache_rendered(final(self).entries()) == Some(t@),
                None => cache_rendered(final(self).entries()) is None,
            },
    {
        self.record(account, drop_id);
        self.to_json()
    }

    /// Reads the cache from the text of its file: a JSON object that gives
    /// for each account the list of its claimed drops. `None` where the
    /// text is no such object. The parser hands out every account and every
    /// drop of an account once; a list that did not would be refused too.
    pub fn from_json(text: &str) -> (cache: Option<ClaimedDrops>)
        ensures
            match cache_parsed(text@) {
                Some(entries) if entries_wf(entries) => cache matches Some(c) && c.wf()
                    && c.entries() == entries && c@ == claims_of(entries),
                _ => cache is None,
            },
    {
        match parse_cache(text) {
            Some(entries) => if entries_distinct(&entries) {
                Some(ClaimedDrops { entries })
            } else {
                None
            },
            None => None,
        }
    }

    /// The cache at the start of the program, from what its file holds, and
    /// whether the file is to be written: a missing file means a cache
    /// without entries and is written at once. `None` where the file holds
    /// no cache.
    pub fn restore(stored: Option<&str>) -> (loaded: (Option<ClaimedDrops>, bool))
        ensures
            match stored {
                Some(text) => !loaded.1 && match cache_parsed(text@) {
                    Some(entries) if entries_wf(entries) => loaded.0 matches Some(c) && c.wf()
                        && c.entries() == entries && c@ == claims_of(entries),
                    _ => loaded.0 is None,
                },
                None => loaded.1 && (loaded.0 matches Some(c) && c.wf() && c.entries() == Seq::<
                    (Seq<char>, Seq<Seq<char>>),
                >::empty() && c@ == Set::<Claim>::empty()),
            },
    {
        match stored {
            Some(text) => (ClaimedDrops::from_json(text), false),
            None => (Some(ClaimedDrops::new()), true),
        }
    }

    /// Writes the cache as the text of its file, pretty-printed.
    pub fn to_json(&self) -> (text: Option<String>)
        requires
            self.wf(),
        ensures
            match text {
                Some(t) => cache_rendered(self.entries()) == Some(t@),
                None => cache_rendered(self.entries()) is None,
            },
    {
        render_cache(&self.entries)
    }
}

/// Whether no string occurs twice in `items`.
pub fn strings_distinct(items: &Vec<String>) -> (b: bool)
    ensures
        b == string_views(items@).no_duplicates(),
{
    let ghost views = string_views(items@);
    let mut i: usize = 0;
    while i < items.len()
        invariant
            i <= items.len(),
            views == string_views(items@),
            forall|a: int, c: int| 0 <= a < c < i ==> views[a] != views[c],
        decreases items.len() - i,
    {
        let mut j: usize = 0;
        while j < i
            invariant
                j <= i,
                i < items.len(),
                views == string_views(items@),
                forall|a: int| 0 <= a < j ==> views[a] != views[i as int],
            decreases i - j,
        {
            if items[j] == items[i] {
                assert(views[j as int] == views[i as int]);
                return false;
            }
            j += 1;
        }
        i += 1;
    }
    assert forall|a: int, c: int| 0 <= a < views.len() && 0 <= c < views.len() && a != c implies views[a]
        != views[c] by {
        if a < c {
        } else {
            assert(views[c] != views[a]);
        }
    }
    true
}

/// Whether no account has two entries and no entry names a drop twice.
pub fn entries_distinct(entries: &Vec<(String, Vec<String>)>) -> (b: bool)
    ensures
        b == entries_wf(entry_views(entries@)),
{
    let ghost all = entry_views(entries@);
    let mut i: usize = 0;
    while i < entries.len()
        invariant
            i <= entries.len(),
            all == entry_views(entries@),
            forall|a: int, c: int| 0 <= a < c < i ==> all[a].0 != all[c].0,
            forall|a: int| 0 <= a < i ==> (#[trigger] all[a]).1.no_duplicates(),
        decreases entries.len() - i,
    {
        if !strings_distinct(&entries[i].1) {
            assert(!all[i as int].1.no_duplicates());
            return false;
        }
        let mut j: usize = 0;
        while j < i
            invariant
                j <= i,
                i < entries.len(),
                all == entry_views(entries@),
                forall|a: int| 0 <= a < j ==> all[a].0 != all[i as int].0,
            decreases i - j,
        {
            if entries[j].0 == entries[i].0 {
                assert(all[j as int].0 == all[i as int].0);
                return false;
            }
            j += 1;
        }
        i += 1;
    }
    true
}

} // verus!
