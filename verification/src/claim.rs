//! The claim engine: which claim to submit for a drop, and how the answer
//! of the platform counts.

use vstd::prelude::*;
use crate::retry::{RetryPolicy, RetryStep, retry_backup, retry_step};

verus! {

/// A drop of the account's inventory: its id, and the id of the claim
/// instance that it carries once it can be claimed.
#[derive(Debug, PartialEq, Eq)]
pub struct InventoryDrop {
    pub id: String,
    pub instance_id: Option<String>,
}

/// A drop of the inventory in contracts.
pub struct InventoryView {
    pub id: Seq<char>,
    pub instance_id: Option<Seq<char>>,
}

impl View for InventoryDrop {
    type V = InventoryView;

    open spec fn view(&self) -> InventoryView {
        InventoryView {
            id: self.id@,
            instance_id: match self.instance_id {
                Some(i) => Some(i@),
                None => None,
            },
        }
    }
}

/// The views of a run of inventory drops, in order.
pub open spec fn inventory_views(s: Seq<InventoryDrop>) -> Seq<InventoryView> {
    s.map_values(|d: InventoryDrop| d@)
}

/// The claim instance to submit for the drop `id`: that of the first drop
/// of the inventory that has this id and carries one.
pub open spec fn claim_instance(inventory: Seq<InventoryView>, id: Seq<char>) -> Option<Seq<char>>
    decreases inventory.len(),
{
    if inventory.len() == 0 {
        None
    } else if inventory[0].id == id && inventory[0].instance_id is Some {
        inventory[0].instance_id
    } else {
        claim_instance(inventory.drop_first(), id)
    }
}

/// The claim instance to submit for the drop `drop_id`, or `None` where the
/// inventory holds no drop of this id that can be claimed: then the
/// inventory is to be fetched again.
pub fn claim_drop(inventory: &Vec<InventoryDrop>, drop_id: &str) -> (instance: Option<String>)
    ensures
        match instance {
            Some(i) => claim_instance(inventory_views(inventory@), drop_id@) == Some(i@),
            None => claim_instance(inventory_views(inventory@), drop_id@) is None,
        },
{
    let ghost all = inventory_views(inventory@);
    let wanted = drop_id.to_owned();
    let mut found: Option<usize> = None;
    let mut i: usize = inventory.len();
    assert(all.skip(i as int) =~= Seq::<InventoryView>::empty());
    while i > 0
        invariant
            i <= inventory.len(),
            all == inventory_views(inventory@),
            wanted@ == drop_id@,
            match found {
                Some(k) => k < inventory.len() && all[k as int].instance_id is Some && claim_instance(
                    all.skip(i as int),
                    drop_id@,
                ) == all[k as int].instance_id,
                None => claim_instance(all.skip(i as int), drop_id@) is None,
            },
        decreases i,
    {
        i -= 1;
        proof {
            assert(all.skip(i as int).drop_first() =~= all.skip(i + 1));
            assert(all.skip(i as int)[0] == all[i as int]);
        }
        if inventory[i].id == wanted && inventory[i].instance_id.is_some() {
            found = Some(i);
        }
    }
    assert(all.skip(0) =~= all);
    match found {
        Some(k) => inventory[k].instance_id.clone(),
        None => None,
    }
}

/// What the platform answered to a claim.
#[derive(Debug, Clone, Copy, PartialEq, Eq, Structural)]
pub enum ClaimResult {
    /// The drop was claimed now.
    Claimed,
    /// The drop had been claimed before.
    AlreadyClaimed,
    /// Anything else.
    Failed,
}

/// Whether a claim is done with. A drop that had been claimed before is as
/// good as one claimed now; any other answer calls for another try.
pub fn claim_settled(result: ClaimResult) -> (done: bool)
    ensures
        done == (result != ClaimResult::Failed),
{
    match result {
        ClaimResult::Claimed => true,
        ClaimResult::AlreadyClaimed => true,
        ClaimResult::Failed => false,
    }
}

/// What follows an attempt to claim, `attempts` failed attempts having been
/// counted before it. `answer` is what the platform answered, or `None`
/// where the inventory held nothing to submit. A settled claim ends the
/// matter; anything else is a failure, and the policy says whether and when
/// the inventory is fetched again.
pub fn claim_next(policy: RetryPolicy, answer: Option<ClaimResult>, attempts: u32) -> (next: Option<
    RetryStep,
>)
    ensures
        next == match answer {
            Some(result) if result != ClaimResult::Failed => None,
            _ => Some(retry_step(policy, attempts)),
        },
{
    match answer {
        Some(result) if claim_settled(result) => None,
        _ => Some(retry_backup(policy, attempts)),
    }
}

} // verus!
