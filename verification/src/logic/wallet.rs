//! Currency balances.

use vstd::prelude::*;

verus! {

/// Gold granted to every wallet on creation.
pub const WALLET_GOLD_AMOUNT: u64 = 9_999_999;

/// Diamonds granted to every wallet on creation.
pub const WALLET_DIAMOND_AMOUNT: u64 = 9_999_999;

pub struct WalletState {
    pub gold: u64,
    pub diamond: u64,
}

impl Default for WalletState {
    fn default() -> (w: Self)
        ensures
            w.gold == WALLET_GOLD_AMOUNT,
            w.diamond == WALLET_DIAMOND_AMOUNT,
    {
        WalletState { gold: WALLET_GOLD_AMOUNT, diamond: WALLET_DIAMOND_AMOUNT }
    }
}

impl WalletState {
    pub fn new() -> (w: Self)
        ensures
            w.gold == WALLET_GOLD_AMOUNT,
            w.diamond == WALLET_DIAMOND_AMOUNT,
    {
        Self::default()
    }

    pub fn with_balances(gold: u64, diamond: u64) -> (w: Self)
        ensures
            w.gold == gold,
            w.diamond == diamond,
    {
        WalletState { gold, diamond }
    }

    /// Deducts `amount` gold when the balance covers it; otherwise leaves the
    /// wallet untouched and returns false.
    pub fn try_deduct_gold(&mut self, amount: u32) -> (ok: bool)
        ensures
            ok == (old(self).gold >= amount),
            ok ==> final(self).gold == old(self).gold - amount,
            !ok ==> final(self).gold == old(self).gold,
            final(self).diamond == old(self).diamond,
    {
        if self.gold >= amount as u64 {
            self.gold = self.gold - amount as u64;
            true
        } else {
            false
        }
    }
}

} // verus!
