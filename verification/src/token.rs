//! Pool figures that follow the LST ledger: the number of delegators and the
//! NEAR that storage deposits add to or take from the account.

use vstd::prelude::*;
use crate::pool::{LiquidStakingToken, PoolError};
use crate::stats::PoolStatistics;

verus! {

/// One yoctoNEAR, the deposit that storage calls require.
pub const ONE_YOCTO: u128 = 1;

impl LiquidStakingToken {
    /// After an LST transfer: a receiver that held nothing before becomes a
    /// delegator, and a sender left with nothing stops being one.
    pub fn ft_transfer(&mut self, is_new_delegator: bool, sender_left_empty: bool) -> (r: Result<(), PoolError>)
        requires
            old(self).wf(),
        ensures
            final(self).wf(),
            old(self).pending_matches_queue() ==> final(self).pending_matches_queue(),
            ({
                let n = old(self).statistics.num_delegators + (if is_new_delegator { 1int } else { 0int });
                if n > u64::MAX {
                    r == Err::<(), PoolError>(PoolError::DelegatorsOverflow) && *final(self) == *old(self)
                } else if sender_left_empty && n == 0 {
                    r == Err::<(), PoolError>(PoolError::DelegatorsUnderflow) && *final(self) == *old(self)
                } else {
                    r is Ok && *final(self) == (LiquidStakingToken {
                        statistics: PoolStatistics {
                            num_delegators: (n - (if sender_left_empty { 1int } else { 0int })) as u64,
                            ..old(self).statistics
                        },
                        ..*old(self)
                    })
                }
            }),
    {
        if is_new_delegator && self.statistics.num_delegators == u64::MAX {
            return Err(PoolError::DelegatorsOverflow);
        }
        if sender_left_empty && !is_new_delegator && self.statistics.num_delegators == 0 {
            return Err(PoolError::DelegatorsUnderflow);
        }
        if is_new_delegator {
            self.statistics.increase_delegators();
        }
        if sender_left_empty {
            self.statistics.decrease_delegators();
        }
        Ok(())
    }

    /// After an LST transfer call: a receiver that held nothing before
    /// becomes a delegator.
    pub fn ft_transfer_call(&mut self, is_new_delegator: bool) -> (r: Result<(), PoolError>)
        requires
            old(self).wf(),
        ensures
            final(self).wf(),
            old(self).pending_matches_queue() ==> final(self).pending_matches_queue(),
            is_new_delegator && old(self).statistics.num_delegators == u64::MAX
                ==> r == Err::<(), PoolError>(PoolError::DelegatorsOverflow) && *final(self) == *old(self),
            !is_new_delegator ==> r is Ok && *final(self) == *old(self),
            is_new_delegator && old(self).statistics.num_delegators < u64::MAX ==> r is Ok
                && *final(self) == (LiquidStakingToken {
                    statistics: PoolStatistics {
                        num_delegators: (old(self).statistics.num_delegators + 1) as u64,
                        ..old(self).statistics
                    },
                    ..*old(self)
                }),
    {
        if is_new_delegator {
            if self.statistics.num_delegators == u64::MAX {
                return Err(PoolError::DelegatorsOverflow);
            }
            self.statistics.increase_delegators();
        }
        Ok(())
    }

    /// After a storage deposit: registering a new account from outside adds
    /// the minimum storage balance to the tracked balance.
    pub fn storage_deposit(&mut self, is_external: bool, was_registered: bool, min_storage_balance: u128) -> (r: Result<(), PoolError>)
        requires
            old(self).wf(),
        ensures
            final(self).wf(),
            old(self).pending_matches_queue() ==> final(self).pending_matches_queue(),
            !(is_external && !was_registered) ==> r is Ok && *final(self) == *old(self),
            is_external && !was_registered && old(self).statistics.latest_total_balance + min_storage_balance > u128::MAX
                ==> r == Err::<(), PoolError>(PoolError::TotalBalanceAddOverflow) && *final(self) == *old(self),
            is_external && !was_registered && old(self).statistics.latest_total_balance + min_storage_balance <= u128::MAX
                ==> r is Ok && *final(self) == (LiquidStakingToken {
                    statistics: PoolStatistics {
                        latest_total_balance: (old(self).statistics.latest_total_balance + min_storage_balance) as u128,
                        ..old(self).statistics
                    },
                    ..*old(self)
                }),
    {
        if is_external && !was_registered {
            if self.statistics.latest_total_balance > u128::MAX - min_storage_balance {
                return Err(PoolError::TotalBalanceAddOverflow);
            }
            self.statistics.increase_total_balance(min_storage_balance);
        }
        Ok(())
    }

    /// After a storage withdrawal from outside: the attached yoctoNEAR stays
    /// with the account.
    pub fn storage_withdraw(&mut self, is_external: bool) -> (r: Result<(), PoolError>)
        requires
            old(self).wf(),
        ensures
            final(self).wf(),
            old(self).pending_matches_queue() ==> final(self).pending_matches_queue(),
            !is_external ==> r is Ok && *final(self) == *old(self),
            is_external && old(self).statistics.latest_total_balance == u128::MAX
                ==> r == Err::<(), PoolError>(PoolError::TotalBalanceAddOverflow) && *final(self) == *old(self),
            is_external && old(self).statistics.latest_total_balance < u128::MAX ==> r is Ok
                && *final(self) == (LiquidStakingToken {
                    statistics: PoolStatistics {
                        latest_total_balance: (old(self).statistics.latest_total_balance + ONE_YOCTO) as u128,
                        ..old(self).statistics
                    },
                    ..*old(self)
                }),
    {
        if is_external {
            if self.statistics.latest_total_balance > u128::MAX - ONE_YOCTO {
                return Err(PoolError::TotalBalanceAddOverflow);
            }
            self.statistics.increase_total_balance(ONE_YOCTO);
        }
        Ok(())
    }

    /// After unregistering from outside: a removed account takes its minimum
    /// storage balance away; otherwise the attached yoctoNEAR stays.
    pub fn storage_unregister(&mut self, is_external: bool, unregistered: bool, min_storage_balance: u128) -> (r: Result<(), PoolError>)
        requires
            old(self).wf(),
        ensures
            final(self).wf(),
            old(self).pending_matches_queue() ==> final(self).pending_matches_queue(),
            !is_external ==> r is Ok && *final(self) == *old(self),
            is_external && unregistered && min_storage_balance > old(self).statistics.latest_total_balance
                ==> r == Err::<(), PoolError>(PoolError::TotalBalanceUnderflow) && *final(self) == *old(self),
            is_external && unregistered && min_storage_balance <= old(self).statistics.latest_total_balance ==> r is Ok
                && *final(self) == (LiquidStakingToken {
                    statistics: PoolStatistics {
                        latest_total_balance: (old(self).statistics.latest_total_balance - min_storage_balance) as u128,
                        ..old(self).statistics
                    },
                    ..*old(self)
                }),
            is_external && !unregistered && old(self).statistics.latest_total_balance == u128::MAX
                ==> r == Err::<(), PoolError>(PoolError::TotalBalanceAddOverflow) && *final(self) == *old(self),
            is_external && !unregistered && old(self).statistics.latest_total_balance < u128::MAX ==> r is Ok
                && *final(self) == (LiquidStakingToken {
                    statistics: PoolStatistics {
                        latest_total_balance: (old(self).statistics.latest_total_balance + ONE_YOCTO) as u128,
                        ..old(self).statistics
                    },
                    ..*old(self)
                }),
    {
        if is_external {
            if unregistered {
                if min_storage_balance > self.statistics.latest_total_balance {
                    return Err(PoolError::TotalBalanceUnderflow);
                }
                self.statistics.decrease_total_balance(min_storage_balance);
            } else {
                if self.statistics.latest_total_balance > u128::MAX - ONE_YOCTO {
                    return Err(PoolError::TotalBalanceAddOverflow);
                }
                self.statistics.increase_total_balance(ONE_YOCTO);
            }
        }
        Ok(())
    }
}

} // verus!
