//! Reward table: what each reward id grants.

use crate::config::table::{get, lookup};
use vstd::prelude::*;

verus! {

/// A quantity of one item.
#[derive(Debug, Clone)]
pub struct ItemBundle {
    pub id: String,
    pub count: i64,
}

/// The bundles a reward grants.
#[derive(Debug, Clone)]
pub struct RewardEntry {
    pub reward_id: String,
    pub item_bundles: Vec<ItemBundle>,
}

/// The reward table, keyed by reward id.
pub struct RewardAssets {
    by_id: Vec<(String, RewardEntry)>,
}

impl Default for RewardAssets {
    /// An empty table: no reward grants anything.
    fn default() -> (r: Self)
        ensures
            r.rewards().len() == 0,
    {
        RewardAssets { by_id: Vec::new() }
    }
}

impl RewardAssets {
    pub closed spec fn rewards(&self) -> Seq<(String, RewardEntry)> {
        self.by_id@
    }

    pub fn new(by_id: Vec<(String, RewardEntry)>) -> (a: Self)
        ensures
            a.rewards() == by_id@,
    {
        RewardAssets { by_id }
    }

    pub fn get(&self, reward_id: &str) -> (r: Option<&RewardEntry>)
        ensures
            match r {
                Some(e) => lookup(self.rewards(), reward_id@) == Some(*e),
                None => lookup(self.rewards(), reward_id@) is None,
            },
    {
        get(self.by_id.as_slice(), reward_id)
    }

    pub fn len(&self) -> (n: usize)
        ensures
            n == self.rewards().len(),
    {
        self.by_id.len()
    }

    pub fn is_empty(&self) -> (b: bool)
        ensures
            b == (self.rewards().len() == 0),
    {
        self.by_id.len() == 0
    }
}

} // verus!
