//! Pool-wide accounting figures.

use vstd::prelude::*;

verus! {

/// Denominator of the protocol fee, which is expressed in basis points.
pub const BPS_DENOMINATOR: u16 = 10_000;

/// Statistics about the pool. Amounts are in yoctoNEAR.
#[derive(Debug, Clone, Copy, PartialEq, Eq, Structural)]
pub struct PoolStatistics {
    /// Total balance (locked + unlocked) of the pool, as last recorded.
    pub latest_total_balance: u128,
    /// Total amount of NEAR backing the LST supply.
    pub total_staked_amount: u128,
    /// The sum of NEAR amounts queued for withdrawal.
    pub total_pending_withdrawals: u128,
    /// The protocol fee in basis points (1 bp = 0.01%).
    pub protocol_fee_bps: u16,
    /// The epoch at which rewards were last synced.
    pub last_epoch_synced: u64,
    /// The number of delegators in the pool.
    pub num_delegators: u64,
}

impl Default for PoolStatistics {
    fn default() -> (r: Self)
        ensures
            r == (PoolStatistics {
                latest_total_balance: 0,
                total_staked_amount: 0,
                total_pending_withdrawals: 0,
                protocol_fee_bps: 0,
                last_epoch_synced: 0,
                num_delegators: 0,
            }),
    {
        PoolStatistics {
            latest_total_balance: 0,
            total_staked_amount: 0,
            total_pending_withdrawals: 0,
            protocol_fee_bps: 0,
            last_epoch_synced: 0,
            num_delegators: 0,
        }
    }
}

impl PoolStatistics {
    pub fn increase_stake_amount(&mut self, amount: u128)
        requires
            old(self).total_staked_amount + amount <= u128::MAX,
        ensures
            *final(self) == (PoolStatistics {
                total_staked_amount: (old(self).total_staked_amount + amount) as u128,
                ..*old(self)
            }),
    {
        self.total_staked_amount = self.total_staked_amount + amount;
    }

    pub fn decrease_stake_amount(&mut self, amount: u128)
        requires
            amount <= old(self).total_staked_amount,
        ensures
            *final(self) == (PoolStatistics {
                total_staked_amount: (old(self).total_staked_amount - amount) as u128,
                ..*old(self)
            }),
    {
        self.total_staked_amount = self.total_staked_amount - amount;
    }

    pub fn increase_total_balance(&mut self, amount: u128)
        requires
            old(self).latest_total_balance + amount <= u128::MAX,
        ensures
            *final(self) == (PoolStatistics {
                latest_total_balance: (old(self).latest_total_balance + amount) as u128,
                ..*old(self)
            }),
    {
        self.latest_total_balance = self.latest_total_balance + amount;
    }

    pub fn decrease_total_balance(&mut self, amount: u128)
        requires
            amount <= old(self).latest_total_balance,
        ensures
            *final(self) == (PoolStatistics {
                latest_total_balance: (old(self).latest_total_balance - amount) as u128,
                ..*old(self)
            }),
    {
        self.latest_total_balance = self.latest_total_balance - amount;
    }

    pub fn increase_pending_withdrawals(&mut self, amount: u128)
        requires
            old(self).total_pending_withdrawals + amount <= u128::MAX,
        ensures
            *final(self) == (PoolStatistics {
                total_pending_withdrawals: (old(self).total_pending_withdrawals + amount) as u128,
                ..*old(self)
            }),
    {
        self.total_pending_withdrawals = self.total_pending_withdrawals + amount;
    }

    pub fn decrease_pending_withdrawals(&mut self, amount: u128)
        requires
            amount <= old(self).total_pending_withdrawals,
        ensures
            *final(self) == (PoolStatistics {
                total_pending_withdrawals: (old(self).total_pending_withdrawals - amount) as u128,
                ..*old(self)
            }),
    {
        self.total_pending_withdrawals = self.total_pending_withdrawals - amount;
    }

    pub fn increase_delegators(&mut self)
        requires
            old(self).num_delegators < u64::MAX,
        ensures
            *final(self) == (PoolStatistics {
                num_delegators: (old(self).num_delegators + 1) as u64,
                ..*old(self)
            }),
    {
        self.num_delegators = self.num_delegators + 1;
    }

    pub fn decrease_delegators(&mut self)
        requires
            old(self).num_delegators > 0,
        ensures
            *final(self) == (PoolStatistics {
                num_delegators: (old(self).num_delegators - 1) as u64,
                ..*old(self)
            }),
    {
        self.num_delegators = self.num_delegators - 1;
    }
}

} // verus!
