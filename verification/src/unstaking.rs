//! Unstaking: burning LST for NEAR that enters the withdrawal queue.

use vstd::prelude::*;
use crate::messages::{UnstakeMessage, UnstakeTrigger, borsh_unstake_message, keccak256_of, unstake_message_encodable};
use crate::pool::{LiquidStakingToken, PoolError, SyncOutcome, lst_to_near_spec, sync_spec};
use crate::requests::{CryptoHash, WithdrawalRequests, swept_amount, sweep_fits};
use crate::stats::PoolStatistics;

verus! {

/// What the caller schedules for an unstake: lower the account's stake to
/// `new_total_staked_amount`, record the state change (burning `lst_amount`
/// LST), then queue `unstake_amount` NEAR under `msg_hash`.
#[derive(Debug, Clone, Copy)]
pub struct UnstakePlan {
    pub unstake_amount: u128,
    pub lst_amount: u128,
    pub msg_hash: CryptoHash,
    pub new_total_staked_amount: u128,
    pub trigger: UnstakeTrigger,
}

/// Why an unstake of `lst` LST with `msg` is refused, if it is.
pub open spec fn unstake_error(
    st: PoolStatistics,
    lst: u128,
    msg: &UnstakeMessage,
    epoch: u64,
    locked: u128,
    balance: u128,
    supply: u128,
) -> Option<PoolError> {
    if lst == 0 {
        Some(PoolError::ZeroUnstakeAmount)
    } else {
        match sync_spec(st, epoch, locked, balance, 0, supply) {
            Err(e) => Some(e),
            Ok((st2, out)) => {
                let near = lst_to_near_spec(lst, (supply + out.fee_lst) as u128, st2.total_staked_amount);
                if near > u128::MAX {
                    Some(PoolError::MulDivOverflow)
                } else if near == 0 {
                    Some(PoolError::ZeroUnstakeNearAmount)
                } else if near > st2.total_staked_amount {
                    Some(PoolError::UnstakeMoreThanStaked)
                } else if !unstake_message_encodable(*msg) {
                    Some(PoolError::HashFailed)
                } else {
                    None
                }
            },
        }
    }
}

/// An accepted unstake of `lst` LST with `msg`: the rewards sync happened,
/// and the plan carries the NEAR owed at the rate after the sync, the hash
/// of the message and the lowered stake.
pub open spec fn unstake_plan_ok(
    before: LiquidStakingToken,
    after: LiquidStakingToken,
    lst: u128,
    msg: &UnstakeMessage,
    trigger: UnstakeTrigger,
    epoch: u64,
    locked: u128,
    balance: u128,
    supply: u128,
    out: SyncOutcome,
    plan: UnstakePlan,
) -> bool {
    &&& unstake_error(before.statistics, lst, msg, epoch, locked, balance, supply) is None
    &&& sync_spec(before.statistics, epoch, locked, balance, 0, supply) matches Ok((st2, out2)) && {
        let near = lst_to_near_spec(lst, (supply + out2.fee_lst) as u128, st2.total_staked_amount);
        &&& out == out2
        &&& after == (LiquidStakingToken { statistics: st2, ..before })
        &&& plan.unstake_amount == near
        &&& plan.new_total_staked_amount == st2.total_staked_amount - near
    }
    &&& plan.lst_amount == lst
    &&& plan.msg_hash@ == keccak256_of(borsh_unstake_message(*msg))
    &&& plan.trigger == trigger
}

/// Why recording `amount` under `hash` at epoch `e` is refused, if it is:
/// the matured tranches it collapses overflow in amount or in residual, or
/// the amount cannot be folded in (or the queue is full).
pub open spec fn append_error(wr: WithdrawalRequests, e: u64, hash: CryptoHash, amount: u128) -> Option<PoolError> {
    match wr.tranches_of(hash) {
        Some(s) => if swept_amount(s, e) > u128::MAX {
            Some(PoolError::CollapseAmountOverflow)
        } else if !sweep_fits(s, e) {
            Some(PoolError::CollapseResidualOverflow)
        } else if !wr.append_fits(e, hash, amount) {
            Some(PoolError::WithdrawalAmountOverflow)
        } else {
            None
        },
        None => if !wr.append_fits(e, hash, amount) {
            Some(PoolError::WithdrawalAmountOverflow)
        } else {
            None
        },
    }
}

impl LiquidStakingToken {
    /// Unstaking `lst_amount` LST with `args`: syncs rewards, converts the LST
    /// to NEAR at the rate after the sync and plans the unstake.
    pub fn handle_unstaking(
        &mut self,
        lst_amount: u128,
        args: &UnstakeMessage,
        trigger: UnstakeTrigger,
        current_epoch: u64,
        account_locked_balance: u128,
        account_balance: u128,
        total_lst_supply: u128,
    ) -> (r: Result<(SyncOutcome, UnstakePlan), PoolError>)
        requires
            old(self).wf(),
        ensures
            final(self).wf(),
            old(self).pending_matches_queue() ==> final(self).pending_matches_queue(),
            match r {
                Ok((out, plan)) => unstake_plan_ok(*old(self), *final(self), lst_amount, args, trigger, current_epoch,
                    account_locked_balance, account_balance, total_lst_supply, out, plan),
                Err(e) => unstake_error(old(self).statistics, lst_amount, args, current_epoch, account_locked_balance,
                    account_balance, total_lst_supply) == Some(e) && *final(self) == *old(self),
            },
    {
        if lst_amount == 0 {
            return Err(PoolError::ZeroUnstakeAmount);
        }
        let saved = self.statistics;
        let out = self.sync_rewards_internal(current_epoch, account_locked_balance, account_balance, None, total_lst_supply)?;
        let unstake_amount = match self.lst_to_near(lst_amount, total_lst_supply + out.fee_lst) {
            Some(x) => x,
            None => {
                self.statistics = saved;
                return Err(PoolError::MulDivOverflow);
            },
        };
        if unstake_amount == 0 {
            self.statistics = saved;
            return Err(PoolError::ZeroUnstakeNearAmount);
        }
        if unstake_amount > self.statistics.total_staked_amount {
            self.statistics = saved;
            return Err(PoolError::UnstakeMoreThanStaked);
        }
        let msg_hash = match args.hash() {
            Some(h) => h,
            None => {
                self.statistics = saved;
                return Err(PoolError::HashFailed);
            },
        };
        let new_total_staked_amount = self.statistics.total_staked_amount - unstake_amount;
        Ok((out, UnstakePlan { unstake_amount, lst_amount, msg_hash, new_total_staked_amount, trigger }))
    }

    /// Records a completed unstake action: the NEAR leaves the backing. The
    /// caller then burns the LST held by the contract.
    pub fn modify_state_after_unstake(&mut self, unstake_amount: u128) -> (r: Result<(), PoolError>)
        requires
            old(self).wf(),
        ensures
            final(self).wf(),
            old(self).pending_matches_queue() ==> final(self).pending_matches_queue(),
            unstake_amount > old(self).statistics.total_staked_amount ==> r == Err::<(), PoolError>(PoolError::StakeAmountUnderflow)
                && *final(self) == *old(self),
            unstake_amount <= old(self).statistics.total_staked_amount ==> r is Ok && *final(self) == (LiquidStakingToken {
                statistics: PoolStatistics {
                    total_staked_amount: (old(self).statistics.total_staked_amount - unstake_amount) as u128,
                    ..old(self).statistics
                },
                ..*old(self)
            }),
    {
        if unstake_amount > self.statistics.total_staked_amount {
            return Err(PoolError::StakeAmountUnderflow);
        }
        self.statistics.decrease_stake_amount(unstake_amount);
        Ok(())
    }

    /// After the unstake chain: on success `near_amount` is queued under
    /// `msg_hash` at `current_epoch` and counted as pending; on failure the
    /// LST goes back to a user who asked for the unstake. Returns the LST to
    /// refund.
    pub fn on_unstake(
        &mut self,
        unstake_succeeded: bool,
        lst_amount: u128,
        near_amount: u128,
        msg_hash: CryptoHash,
        trigger: UnstakeTrigger,
        current_epoch: u64,
    ) -> (r: Result<u128, PoolError>)
        requires
            old(self).wf(),
        ensures
            final(self).wf(),
            old(self).pending_matches_queue() ==> final(self).pending_matches_queue(),
            !unstake_succeeded ==> *final(self) == *old(self) && r == Ok::<u128, PoolError>(
                if trigger == UnstakeTrigger::UserRequest { lst_amount } else { 0 }),
            unstake_succeeded && append_error(old(self).withdrawal_requests, current_epoch, msg_hash, near_amount) is Some
                ==> r == Err::<u128, PoolError>(append_error(old(self).withdrawal_requests, current_epoch, msg_hash, near_amount)->Some_0)
                && *final(self) == *old(self),
            unstake_succeeded && old(self).withdrawal_requests.append_fits(current_epoch, msg_hash, near_amount)
                && old(self).statistics.total_pending_withdrawals + near_amount > u128::MAX
                ==> r == Err::<u128, PoolError>(PoolError::PendingWithdrawalsOverflow) && *final(self) == *old(self),
            unstake_succeeded && old(self).withdrawal_requests.append_fits(current_epoch, msg_hash, near_amount)
                && old(self).statistics.total_pending_withdrawals + near_amount <= u128::MAX ==> {
                &&& r == Ok::<u128, PoolError>(0)
                &&& final(self).withdrawal_requests.entries()
                    == old(self).withdrawal_requests.appended_entries(current_epoch, msg_hash, near_amount)
                &&& *final(self) == (LiquidStakingToken {
                    statistics: PoolStatistics {
                        total_pending_withdrawals: (old(self).statistics.total_pending_withdrawals + near_amount) as u128,
                        ..old(self).statistics
                    },
                    withdrawal_requests: final(self).withdrawal_requests,
                    ..*old(self)
                })
            },
    {
        if !unstake_succeeded {
            return match trigger {
                UnstakeTrigger::UserRequest => Ok(lst_amount),
                UnstakeTrigger::RefundByContract => Ok(0),
            };
        }
        if !self.withdrawal_requests.swept_amount_fits_for(current_epoch, &msg_hash) {
            return Err(PoolError::CollapseAmountOverflow);
        }
        if !self.withdrawal_requests.sweep_fits_for(current_epoch, &msg_hash) {
            return Err(PoolError::CollapseResidualOverflow);
        }
        if !self.withdrawal_requests.can_append_request(current_epoch, &msg_hash, near_amount) {
            return Err(PoolError::WithdrawalAmountOverflow);
        }
        if self.statistics.total_pending_withdrawals > u128::MAX - near_amount {
            return Err(PoolError::PendingWithdrawalsOverflow);
        }
        proof {
            crate::laws::lemma_appended_total(self.withdrawal_requests, current_epoch, msg_hash, near_amount);
        }
        self.withdrawal_requests.append_request(current_epoch, msg_hash, near_amount);
        self.statistics.increase_pending_withdrawals(near_amount);
        Ok(0)
    }
}

} // verus!
