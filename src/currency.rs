use vstd::prelude::*;

use crate::types::MILS_PER_COIN;

verus! {

/// The supply that the inflation model measures growth against: ten thousand coins.
pub const REFERENCE_SUPPLY: u64 = 10_000_000;

/// Inflation when the supply equals the reference supply: two percent, in parts per
/// billion.
pub const BASE_INFLATION_PPB: i128 = 20_000_000;

/// One whole, in parts per billion.
pub const PPB: u64 = 1_000_000_000;

/// Inflation rate, in parts per billion, for a supply of `supply` mils: the base rate
/// plus five percent for each reference supply above the reference.
pub open spec fn inflation_for(supply: int) -> int {
    BASE_INFLATION_PPB + 50_000_000 * (supply - REFERENCE_SUPPLY) / (REFERENCE_SUPPLY as int)
}

/// Purchasing power after one recomputation: it shrinks by a thousandth of the
/// inflation rate, never below zero and at most to `u64::MAX`.
pub open spec fn decayed(value: int, rate: int) -> int {
    if rate >= 1_000_000_000_000 {
        0
    } else {
        let v = value * (1_000_000_000_000 - rate) / 1_000_000_000_000;
        if v > u64::MAX {
            u64::MAX as int
        } else {
            v
        }
    }
}

/// The global money supply, counted in mils, and the inflation derived from it.
#[derive(Debug, Clone, Copy, PartialEq, Eq, Structural)]
pub struct CurrencySystem {
    pub total_supply: u64,
    /// Purchasing power of one coin, in parts per billion of its value at the start.
    pub base_value: u64,
    /// Inflation rate, in parts per billion.
    pub inflation_rate: i128,
    pub deflation_events: u32,
    pub transaction_count: u64,
}

impl Default for CurrencySystem {
    fn default() -> (r: CurrencySystem)
        ensures
            r.total_supply == REFERENCE_SUPPLY,
            r.base_value == PPB,
            r.inflation_rate == BASE_INFLATION_PPB,
            r.wf(),
            r.deflation_events == 0,
            r.transaction_count == 0,
    {
        CurrencySystem {
            total_supply: REFERENCE_SUPPLY,
            base_value: PPB,
            inflation_rate: BASE_INFLATION_PPB,
            deflation_events: 0,
            transaction_count: 0,
        }
    }
}

fn rate_for(supply: u64) -> (r: i128)
    ensures
        r == inflation_for(supply as int),
        r >= -30_000_000,
{
    BASE_INFLATION_PPB + 5 * ((supply as i128) - (REFERENCE_SUPPLY as i128))
}

fn decay(value: u64, rate: i128) -> (r: u64)
    requires
        rate >= -30_000_000,
    ensures
        r == decayed(value as int, rate as int),
{
    if rate >= 1_000_000_000_000 {
        0
    } else {
        let keep: u128 = (1_000_000_000_000i128 - rate) as u128;
        assert((value as int) * (keep as int) <= 18_446_744_073_709_551_615 * 1_000_030_000_000)
            by (nonlinear_arith)
            requires
                value <= u64::MAX,
                keep <= 1_000_030_000_000,
        ;
        let v: u128 = (value as u128) * keep / 1_000_000_000_000;
        if v > u64::MAX as u128 {
            u64::MAX
        } else {
            v as u64
        }
    }
}

impl CurrencySystem {
    /// The inflation rate always is the one the current supply gives.
    pub open spec fn wf(&self) -> bool {
        self.inflation_rate == inflation_for(self.total_supply as int)
    }

    /// A ledger holding `initial_supply` mils, at the inflation rate that supply gives.
    pub fn new(initial_supply: u64) -> (r: CurrencySystem)
        ensures
            r.wf(),
            r.total_supply == initial_supply,
            r.base_value == PPB,
            r.inflation_rate == inflation_for(initial_supply as int),
            r.deflation_events == 0,
            r.transaction_count == 0,
    {
        CurrencySystem {
            total_supply: initial_supply,
            base_value: PPB,
            inflation_rate: rate_for(initial_supply),
            deflation_events: 0,
            transaction_count: 0,
        }
    }

    /// Recomputes the inflation rate from the supply and lets purchasing power decay
    /// by it.
    fn recalculate_inflation(&mut self)
        ensures
            final(self).inflation_rate == inflation_for(old(self).total_supply as int),
            final(self).base_value == decayed(
                old(self).base_value as int,
                inflation_for(old(self).total_supply as int),
            ),
            final(self).total_supply == old(self).total_supply,
            final(self).deflation_events == old(self).deflation_events,
            final(self).transaction_count == old(self).transaction_count,
    {
        self.inflation_rate = rate_for(self.total_supply);
        self.base_value = decay(self.base_value, self.inflation_rate);
    }

    /// Creates `amount` mils of new money; a positive amount raises the inflation rate.
    pub fn mint_currency(&mut self, amount: u64)
        requires
            old(self).wf(),
            old(self).total_supply + amount <= u64::MAX,
        ensures
            final(self).wf(),
            amount > 0 ==> final(self).inflation_rate > old(self).inflation_rate,
            final(self).total_supply == old(self).total_supply + amount,
            final(self).inflation_rate == inflation_for(final(self).total_supply as int),
            final(self).base_value == decayed(
                old(self).base_value as int,
                final(self).inflation_rate as int,
            ),
            final(self).deflation_events == old(self).deflation_events,
            final(self).transaction_count == old(self).transaction_count,
    {
        proof {
            if amount > 0 {
                lemma_mint_raises_inflation(old(self).total_supply, amount);
            }
        }
        self.total_supply = self.total_supply + amount;
        self.recalculate_inflation();
    }

    /// Destroys up to `amount` mils; the supply never falls below zero.
    pub fn burn_currency(&mut self, amount: u64)
        requires
            old(self).wf(),
        ensures
            final(self).wf(),
            final(self).total_supply == if old(self).total_supply >= amount {
                old(self).total_supply - amount
            } else {
                0
            },
            final(self).inflation_rate == inflation_for(final(self).total_supply as int),
            final(self).base_value == decayed(
                old(self).base_value as int,
                final(self).inflation_rate as int,
            ),
            final(self).deflation_events == if old(self).deflation_events < u32::MAX {
                old(self).deflation_events + 1
            } else {
                u32::MAX as int
            },
            final(self).transaction_count == old(self).transaction_count,
    {
        self.total_supply = self.total_supply.saturating_sub(amount);
        self.deflation_events = self.deflation_events.saturating_add(1);
        self.recalculate_inflation();
    }

    /// Counts one transaction.
    pub fn record_transaction(&mut self, _amount: u64)
        requires
            old(self).wf(),
        ensures
            final(self).wf(),
            final(self).transaction_count == if old(self).transaction_count < u64::MAX {
                old(self).transaction_count + 1
            } else {
                u64::MAX as int
            },
            final(self).total_supply == old(self).total_supply,
            final(self).inflation_rate == old(self).inflation_rate,
            final(self).base_value == old(self).base_value,
            final(self).deflation_events == old(self).deflation_events,
    {
        self.transaction_count = self.transaction_count.saturating_add(1);
    }

    /// Purchasing power of one coin, in parts per billion.
    pub fn get_purchasing_power(&self) -> (r: u64)
        ensures
            r == self.base_value,
    {
        self.base_value
    }
}

/// Minting a positive amount strictly raises the inflation rate, which grows with the
/// supply.
pub proof fn lemma_mint_raises_inflation(supply: u64, amount: u64)
    requires
        supply + amount <= u64::MAX,
        amount > 0,
    ensures
        inflation_for((supply + amount) as int) > inflation_for(supply as int),
{
}

/// An agent's money, in mils.
#[derive(Debug, Clone, Copy, PartialEq, Eq, Structural)]
pub struct Wallet {
    pub balance: u64,
    pub total_earned: u64,
    pub total_spent: u64,
}

pub open spec fn sat_add(a: int, b: int) -> int {
    if a + b > u64::MAX {
        u64::MAX as int
    } else {
        a + b
    }
}

impl Default for Wallet {
    fn default() -> (r: Wallet)
        ensures
            r.balance == 100 * MILS_PER_COIN,
            r.total_earned == 0,
            r.total_spent == 0,
    {
        Wallet { balance: 100 * MILS_PER_COIN, total_earned: 0, total_spent: 0 }
    }
}

impl Wallet {
    pub fn new(initial_balance: u64) -> (r: Wallet)
        ensures
            r.balance == initial_balance,
            r.total_earned == 0,
            r.total_spent == 0,
    {
        Wallet { balance: initial_balance, total_earned: 0, total_spent: 0 }
    }

    pub fn deposit(&mut self, amount: u64)
        requires
            old(self).balance + amount <= u64::MAX,
        ensures
            final(self).balance == old(self).balance + amount,
            final(self).total_earned == sat_add(old(self).total_earned as int, amount as int),
            final(self).total_spent == old(self).total_spent,
    {
        self.balance = self.balance + amount;
        self.total_earned = self.total_earned.saturating_add(amount);
    }

    /// Takes `amount` out if the balance covers it; the balance never goes negative.
    pub fn withdraw(&mut self, amount: u64) -> (ok: bool)
        ensures
            ok == (old(self).balance >= amount),
            ok ==> final(self).balance == old(self).balance - amount,
            ok ==> final(self).total_spent == sat_add(old(self).total_spent as int, amount as int),
            !ok ==> *final(self) == *old(self),
            final(self).total_earned == old(self).total_earned,
    {
        if self.balance >= amount {
            self.balance = self.balance - amount;
            self.total_spent = self.total_spent.saturating_add(amount);
            true
        } else {
            false
        }
    }

    pub fn can_afford(&self, amount: u64) -> (r: bool)
        ensures
            r == (self.balance >= amount),
    {
        self.balance >= amount
    }
}

} // verus!
