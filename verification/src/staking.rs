//! Staking: minting LST for deposited NEAR, and what follows the stake action.

use vstd::prelude::*;
use crate::messages::{DepositToken, StakeMessage, UnstakeMessage, UnstakeTrigger};
use crate::pool::{
    LiquidStakingToken, PoolError, SyncOutcome, calculate_min_gas, min_gas_spec, near_to_lst_spec,
    sync_spec,
};
use crate::stats::PoolStatistics;
use crate::unstaking::{UnstakePlan, unstake_plan_ok};

verus! {

/// What the caller schedules for a stake: move `stake_amount` into the
/// account's stake (raising it to `new_total_staked_amount`), register the
/// receiver if `storage_deposit` is set, then mint `lst_tokens` to the
/// receiver; `then_on_stake_and_deposit` says whether the follow-up callback
/// runs.
#[derive(Debug, Clone, Copy, PartialEq, Eq, Structural)]
pub struct StakePlan {
    pub stake_amount: u128,
    pub lst_tokens: u128,
    pub new_total_staked_amount: u128,
    pub storage_deposit: Option<u128>,
    pub deposit_amount: u128,
    pub is_contract_staking: bool,
    pub then_on_stake_and_deposit: bool,
}

/// The step that follows a stake once the state was updated.
#[derive(Debug, Clone, Copy, PartialEq, Eq, Structural)]
pub enum StakeFollowUp {
    /// Notify the receiver with `ft_on_transfer`, with at least `min_gas`.
    NotifyReceiver { min_gas: u64 },
    /// Nothing more to do.
    Done,
    /// The state update failed: return the deposit as wNEAR.
    RefundAsWnear { amount: u128 },
}

/// What an incoming fungible-token transfer to the pool is for.
#[derive(Debug, Clone, Copy, PartialEq, Eq, Structural)]
pub enum IncomingTransfer {
    /// wNEAR to unwrap and stake; the message is a [`StakeMessage`].
    Stake,
    /// The pool's own LST to unstake; the message is an [`UnstakeMessage`].
    Unstake,
}

/// The plan for staking `deposit_amount` deposited as `deposit_token`, given
/// the pool statistics and the LST supply, or the error that refuses it.
pub open spec fn stake_plan_spec(
    st: PoolStatistics,
    storage_deposit: Option<u128>,
    has_msg: bool,
    deposit_amount: u128,
    deposit_token: DepositToken,
    is_contract_staking: bool,
    total_lst_supply: u128,
) -> Result<StakePlan, PoolError> {
    let sd: u128 = match storage_deposit { Some(x) => x, None => 0 };
    if deposit_amount < sd {
        Err(PoolError::StorageDepositTooLarge)
    } else if deposit_amount == sd {
        Err(PoolError::ZeroStakeAmount)
    } else {
        let stake = (deposit_amount - sd) as u128;
        let lst = near_to_lst_spec(stake, total_lst_supply, st.total_staked_amount);
        if lst > u128::MAX {
            Err(PoolError::MulDivOverflow)
        } else if lst == 0 {
            Err(PoolError::ZeroLstAmount)
        } else if st.total_staked_amount + stake > u128::MAX {
            Err(PoolError::NewTotalStakedOverflow)
        } else {
            Ok(StakePlan {
                stake_amount: stake,
                lst_tokens: lst as u128,
                new_total_staked_amount: (st.total_staked_amount + stake) as u128,
                storage_deposit,
                deposit_amount,
                is_contract_staking,
                then_on_stake_and_deposit: has_msg || deposit_token == DepositToken::Wnear,
            })
        }
    }
}

impl LiquidStakingToken {
    /// Tells what a transfer received from the token contract `token_id` is
    /// for: wNEAR is staked, the pool's own LST is unstaked, anything else is
    /// refused.
    pub fn ft_on_transfer(&self, token_id: &String, current_account_id: &String) -> (r: Result<IncomingTransfer, PoolError>)
        ensures
            r == (if token_id@ == self.wnear_id@ {
                Ok::<IncomingTransfer, PoolError>(IncomingTransfer::Stake)
            } else if token_id@ == current_account_id@ {
                Ok::<IncomingTransfer, PoolError>(IncomingTransfer::Unstake)
            } else {
                Err::<IncomingTransfer, PoolError>(PoolError::InvalidTokenAccount)
            }),
    {
        if *token_id == self.wnear_id {
            Ok(IncomingTransfer::Stake)
        } else if *token_id == *current_account_id {
            Ok(IncomingTransfer::Unstake)
        } else {
            Err(PoolError::InvalidTokenAccount)
        }
    }

    /// The stake of `deposit_amount` (minus the storage deposit) and the LST
    /// it mints at the current rate.
    pub fn stake_and_deposit(
        &self,
        args: &StakeMessage,
        deposit_amount: u128,
        deposit_token: DepositToken,
        is_contract_staking: bool,
        total_lst_supply: u128,
    ) -> (r: Result<StakePlan, PoolError>)
        ensures
            r == stake_plan_spec(self.statistics, args.storage_deposit, args.msg is Some, deposit_amount,
                deposit_token, is_contract_staking, total_lst_supply),
    {
        let sd = match args.storage_deposit {
            Some(x) => x,
            None => 0,
        };
        if deposit_amount < sd {
            return Err(PoolError::StorageDepositTooLarge);
        }
        let stake_amount = deposit_amount - sd;
        if stake_amount == 0 {
            return Err(PoolError::ZeroStakeAmount);
        }
        let lst_tokens = match self.near_to_lst(stake_amount, total_lst_supply) {
            Some(x) => x,
            None => return Err(PoolError::MulDivOverflow),
        };
        if lst_tokens == 0 {
            return Err(PoolError::ZeroLstAmount);
        }
        if self.statistics.total_staked_amount > u128::MAX - stake_amount {
            return Err(PoolError::NewTotalStakedOverflow);
        }
        let then_on_stake_and_deposit = match args.msg {
            Some(_) => true,
            None => deposit_token == DepositToken::Wnear,
        };
        Ok(StakePlan {
            stake_amount,
            lst_tokens,
            new_total_staked_amount: self.statistics.total_staked_amount + stake_amount,
            storage_deposit: args.storage_deposit,
            deposit_amount,
            is_contract_staking,
            then_on_stake_and_deposit,
        })
    }

    /// Staking with attached native NEAR: syncs rewards (not counting the
    /// attached deposit, unless the contract stakes to itself), then plans the
    /// stake at the rate after the sync.
    pub fn stake(
        &mut self,
        sender_id: &String,
        current_account_id: &String,
        attached_deposit: u128,
        current_epoch: u64,
        account_locked_balance: u128,
        account_balance: u128,
        total_lst_supply: u128,
        args: &StakeMessage,
    ) -> (r: Result<(SyncOutcome, StakePlan), PoolError>)
        requires
            old(self).wf(),
        ensures
            final(self).wf(),
            old(self).pending_matches_queue() ==> final(self).pending_matches_queue(),
            ({
                let is_contract = sender_id@ == current_account_id@;
                let exclude: u128 = if is_contract { 0 } else { attached_deposit };
                match sync_spec(old(self).statistics, current_epoch, account_locked_balance, account_balance, exclude, total_lst_supply) {
                    Err(e) => r == Err::<(SyncOutcome, StakePlan), PoolError>(e) && *final(self) == *old(self),
                    Ok((st, out)) => match stake_plan_spec(st, args.storage_deposit, args.msg is Some, attached_deposit,
                        DepositToken::Native, is_contract, (total_lst_supply + out.fee_lst) as u128) {
                        Err(e) => r == Err::<(SyncOutcome, StakePlan), PoolError>(e) && *final(self) == *old(self),
                        Ok(plan) => r == Ok::<(SyncOutcome, StakePlan), PoolError>((out, plan))
                            && *final(self) == (LiquidStakingToken { statistics: st, ..*old(self) }),
                    },
                }
            }),
    {
        let is_contract_staking = *sender_id == *current_account_id;
        let exclude = if is_contract_staking { 0 } else { attached_deposit };
        let saved = self.statistics;
        let out = self.sync_rewards_internal(current_epoch, account_locked_balance, account_balance, Some(exclude), total_lst_supply)?;
        match self.stake_and_deposit(args, attached_deposit, DepositToken::Native, is_contract_staking, total_lst_supply + out.fee_lst) {
            Ok(plan) => Ok((out, plan)),
            Err(e) => {
                self.statistics = saved;
                Err(e)
            },
        }
    }

    /// After wNEAR was unwrapped into `amount` NEAR: syncs rewards (not
    /// counting that amount) and plans its stake.
    pub fn on_near_withdraw(
        &mut self,
        near_withdraw_succeeded: bool,
        amount: u128,
        current_epoch: u64,
        account_locked_balance: u128,
        account_balance: u128,
        total_lst_supply: u128,
        args: &StakeMessage,
    ) -> (r: Result<(SyncOutcome, StakePlan), PoolError>)
        requires
            old(self).wf(),
        ensures
            final(self).wf(),
            old(self).pending_matches_queue() ==> final(self).pending_matches_queue(),
            !near_withdraw_succeeded ==> r == Err::<(SyncOutcome, StakePlan), PoolError>(PoolError::NearWithdrawFailed)
                && *final(self) == *old(self),
            near_withdraw_succeeded ==> match sync_spec(old(self).statistics, current_epoch, account_locked_balance, account_balance, amount, total_lst_supply) {
                Err(e) => r == Err::<(SyncOutcome, StakePlan), PoolError>(e) && *final(self) == *old(self),
                Ok((st, out)) => match stake_plan_spec(st, args.storage_deposit, args.msg is Some, amount,
                    DepositToken::Wnear, false, (total_lst_supply + out.fee_lst) as u128) {
                    Err(e) => r == Err::<(SyncOutcome, StakePlan), PoolError>(e) && *final(self) == *old(self),
                    Ok(plan) => r == Ok::<(SyncOutcome, StakePlan), PoolError>((out, plan))
                        && *final(self) == (LiquidStakingToken { statistics: st, ..*old(self) }),
                },
            },
    {
        if !near_withdraw_succeeded {
            return Err(PoolError::NearWithdrawFailed);
        }
        let saved = self.statistics;
        let out = self.sync_rewards_internal(current_epoch, account_locked_balance, account_balance, Some(amount), total_lst_supply)?;
        match self.stake_and_deposit(args, amount, DepositToken::Wnear, false, total_lst_supply + out.fee_lst) {
            Ok(plan) => Ok((out, plan)),
            Err(e) => {
                self.statistics = saved;
                Err(e)
            },
        }
    }

    /// Records a completed stake: the deposit joins the tracked balance
    /// (unless the contract staked to itself) and the stake joins the backing.
    /// The caller then mints the LST to the receiver.
    pub fn modify_state_after_stake(&mut self, stake_amount: u128, deposit_amount: u128, is_contract_staking: bool) -> (r: Result<(), PoolError>)
        requires
            old(self).wf(),
        ensures
            final(self).wf(),
            old(self).pending_matches_queue() ==> final(self).pending_matches_queue(),
            ({
                let st = old(self).statistics;
                let balance = if is_contract_staking { st.latest_total_balance as int } else { st.latest_total_balance + deposit_amount };
                if balance > u128::MAX {
                    r == Err::<(), PoolError>(PoolError::TotalBalanceAddOverflow) && *final(self) == *old(self)
                } else if st.total_staked_amount + stake_amount > u128::MAX {
                    r == Err::<(), PoolError>(PoolError::StakeAmountOverflow) && *final(self) == *old(self)
                } else {
                    r is Ok && *final(self) == (LiquidStakingToken {
                        statistics: PoolStatistics {
                            latest_total_balance: balance as u128,
                            total_staked_amount: (st.total_staked_amount + stake_amount) as u128,
                            ..st
                        },
                        ..*old(self)
                    })
                }
            }),
    {
        if !is_contract_staking && self.statistics.latest_total_balance > u128::MAX - deposit_amount {
            return Err(PoolError::TotalBalanceAddOverflow);
        }
        if self.statistics.total_staked_amount > u128::MAX - stake_amount {
            return Err(PoolError::StakeAmountOverflow);
        }
        if !is_contract_staking {
            self.statistics.increase_total_balance(deposit_amount);
        }
        self.statistics.increase_stake_amount(stake_amount);
        Ok(())
    }

    /// What follows the state update of a stake: notify the receiver when
    /// the stake message carries a message, or return the deposit as wNEAR
    /// when the update failed.
    pub fn on_stake_and_deposit(&self, state_updated: bool, deposit_amount: u128, args: &StakeMessage) -> (r: StakeFollowUp)
        ensures
            r == (if !state_updated {
                StakeFollowUp::RefundAsWnear { amount: deposit_amount }
            } else if args.msg is Some {
                StakeFollowUp::NotifyReceiver { min_gas: min_gas_spec(args.min_gas, true) }
            } else {
                StakeFollowUp::Done
            }),
    {
        if !state_updated {
            return StakeFollowUp::RefundAsWnear { amount: deposit_amount };
        }
        match args.msg {
            Some(_) => StakeFollowUp::NotifyReceiver { min_gas: calculate_min_gas(args.min_gas, true) },
            None => StakeFollowUp::Done,
        }
    }

    /// The wNEAR amount reported back after refunding a deposit: the deposit
    /// when wrapping succeeded, zero otherwise.
    pub fn refund_wnear_deposit(&self, near_deposit_succeeded: bool, deposit_amount: u128) -> (r: u128)
        ensures
            r == (if near_deposit_succeeded { deposit_amount } else { 0 }),
    {
        if near_deposit_succeeded {
            deposit_amount
        } else {
            0
        }
    }

    /// After the receiver's `ft_on_transfer`: when the stake message carried
    /// a refund message, the LST the receiver did not use (`lst_tokens` minus
    /// `consumed`) is unstaked with it. `None` when there is no refund message
    /// (the refunded LST stays with the receiver) or nothing was refunded.
    pub fn on_ft_on_transfer(
        &mut self,
        lst_tokens: u128,
        consumed: u128,
        refund_message: &Option<UnstakeMessage>,
        current_epoch: u64,
        account_locked_balance: u128,
        account_balance: u128,
        total_lst_supply: u128,
    ) -> (r: Result<Option<(SyncOutcome, UnstakePlan)>, PoolError>)
        requires
            old(self).wf(),
        ensures
            final(self).wf(),
            old(self).pending_matches_queue() ==> final(self).pending_matches_queue(),
            refund_message is None ==> r == Ok::<Option<(SyncOutcome, UnstakePlan)>, PoolError>(None) && *final(self) == *old(self),
            consumed >= lst_tokens ==> r == Ok::<Option<(SyncOutcome, UnstakePlan)>, PoolError>(None) && *final(self) == *old(self),
            refund_message is Some && consumed < lst_tokens ==> match r {
                Ok(Some((out, plan))) => unstake_plan_ok(*old(self), *final(self), (lst_tokens - consumed) as u128, &refund_message->Some_0,
                    UnstakeTrigger::RefundByContract, current_epoch, account_locked_balance, account_balance, total_lst_supply, out, plan),
                Ok(None) => false,
                Err(e) => crate::unstaking::unstake_error(old(self).statistics, (lst_tokens - consumed) as u128, &refund_message->Some_0,
                    current_epoch, account_locked_balance, account_balance, total_lst_supply) == Some(e)
                    && *final(self) == *old(self),
            },
    {
        let unstake_msg = match refund_message {
            Some(m) => m,
            None => return Ok(None),
        };
        let refund = lst_tokens.saturating_sub(consumed);
        if refund == 0 {
            return Ok(None);
        }
        let (out, plan) = self.handle_unstaking(refund, unstake_msg, UnstakeTrigger::RefundByContract,
            current_epoch, account_locked_balance, account_balance, total_lst_supply)?;
        Ok(Some((out, plan)))
    }
}

} // verus!
