//! Withdrawing matured unstakes, as native NEAR or as wNEAR.

use vstd::prelude::*;
use crate::messages::{UnstakeMessage, WithdrawTokens, borsh_unstake_message, keccak256_of, unstake_message_encodable};
use crate::pool::{LiquidStakingToken, PoolError, calculate_min_gas, min_gas_spec};
use crate::requests::{
    CryptoHash, Lock, Tranche, first_locked, lemma_locked_update_wf, locked_count, merged, swept_amount,
    sweep_fits, after_sweep,
};
use crate::stats::PoolStatistics;
use crate::laws::{lemma_locked_value_total, lemma_released_total, lemma_removed_total, lemma_sweep_total};

verus! {

/// A wNEAR delivery: wrap `amount_to_near_deposit` NEAR (if non-zero), pay
/// `storage_to_pay` to register the receiver (if non-zero and the receiver
/// is not the contract itself), then transfer `amount_to_send` wNEAR to the
/// receiver (unless it is the contract itself) with `ft_transfer_call` when
/// `is_call`, `ft_transfer` otherwise, with at least `ft_min_gas`.
#[derive(Debug, Clone)]
pub struct WnearPlan {
    pub hash: CryptoHash,
    pub receiver_id: String,
    pub amount_to_send: u128,
    pub amount_to_near_deposit: u128,
    pub storage_to_pay: u128,
    pub is_self_withdraw: bool,
    pub is_call: bool,
    pub ft_min_gas: u64,
    pub msg: Option<String>,
    pub memo: Option<String>,
}

/// How a withdrawal is delivered.
#[derive(Debug, Clone)]
pub enum WithdrawPlan {
    /// Transfer `amount` NEAR to `receiver_id`.
    Native { receiver_id: String, amount: u128, hash: CryptoHash },
    /// Deliver wNEAR.
    Wnear(WnearPlan),
}

/// Why a wNEAR delivery of `amount` from the in-flight tranche `t` is
/// refused, if it is.
pub open spec fn wnear_error(t: Tranche, amount: u128, storage_deposit: Option<u128>, is_self: bool) -> Option<PoolError> {
    let storage_to_pay: u128 = if t.storage_was_paid { 0 } else { match storage_deposit { Some(x) => x, None => 0 } };
    if is_self && storage_deposit is Some {
        Some(PoolError::StorageDepositForSelfWithdrawal)
    } else if amount < storage_to_pay {
        Some(PoolError::StorageDepositExceedsWithdrawal)
    } else if amount - storage_to_pay < t.wnear_residual {
        Some(PoolError::ResidualExceedsDeliverable)
    } else if amount - storage_to_pay == t.wnear_residual && is_self {
        Some(PoolError::NothingToDeliver)
    } else {
        None
    }
}

/// The wNEAR delivery of `amount` from the in-flight tranche `t`.
pub open spec fn wnear_plan_spec(
    t: Tranche,
    amount: u128,
    hash: CryptoHash,
    receiver_id: String,
    storage_deposit: Option<u128>,
    msg: Option<String>,
    memo: Option<String>,
    min_gas: Option<u64>,
    is_self: bool,
) -> WnearPlan {
    let storage_to_pay: u128 = if t.storage_was_paid { 0 } else { match storage_deposit { Some(x) => x, None => 0 } };
    let is_call = !is_self && msg is Some;
    WnearPlan {
        hash,
        receiver_id,
        amount_to_send: (amount - storage_to_pay) as u128,
        amount_to_near_deposit: (amount - storage_to_pay - t.wnear_residual) as u128,
        storage_to_pay,
        is_self_withdraw: is_self,
        is_call,
        ft_min_gas: min_gas_spec(min_gas, is_call),
        msg,
        memo,
    }
}

/// Why a withdrawal under `hash` at `epoch` is refused, if it is.
pub open spec fn withdraw_error(
    pool: LiquidStakingToken,
    hash: CryptoHash,
    receiver_id: String,
    withdraw_tokens: WithdrawTokens,
    epoch: u64,
    current_account_id: String,
) -> Option<PoolError> {
    match pool.withdrawal_requests.tranches_of(hash) {
        None => Some(PoolError::NothingToWithdraw),
        Some(s) => if locked_count(s) > 0 {
            Some(PoolError::WithdrawalInProgress)
        } else if swept_amount(s, epoch) > u128::MAX {
            Some(PoolError::CollapseAmountOverflow)
        } else if !sweep_fits(s, epoch) {
            Some(PoolError::CollapseResidualOverflow)
        } else if swept_amount(s, epoch) == 0 {
            Some(PoolError::NothingToWithdraw)
        } else {
            match withdraw_tokens {
                WithdrawTokens::Native => None,
                WithdrawTokens::Wnear { storage_deposit, .. } => wnear_error(merged(s, epoch),
                    swept_amount(s, epoch) as u128, storage_deposit, receiver_id@ == current_account_id@),
            }
        },
    }
}

/// The delivery of an accepted withdrawal under `hash` at `epoch`.
pub open spec fn withdraw_plan_spec(
    pool: LiquidStakingToken,
    hash: CryptoHash,
    receiver_id: String,
    withdraw_tokens: WithdrawTokens,
    epoch: u64,
    current_account_id: String,
) -> WithdrawPlan {
    let s = pool.withdrawal_requests.tranches_of(hash)->Some_0;
    let amount = swept_amount(s, epoch) as u128;
    match withdraw_tokens {
        WithdrawTokens::Native => WithdrawPlan::Native { receiver_id, amount, hash },
        WithdrawTokens::Wnear { storage_deposit, msg, memo, min_gas } => WithdrawPlan::Wnear(
            wnear_plan_spec(merged(s, epoch), amount, hash, receiver_id, storage_deposit, msg, memo, min_gas,
                receiver_id@ == current_account_id@)),
    }
}

impl LiquidStakingToken {
    /// Claims every matured tranche queued under `hash`: they are collapsed
    /// into one in-flight (locked) tranche, and the delivery is planned.
    /// Immature tranches stay queued.
    pub fn withdraw_by_hash(
        &mut self,
        hash: CryptoHash,
        receiver_id: &String,
        withdraw_tokens: &WithdrawTokens,
        current_epoch: u64,
        current_account_id: &String,
    ) -> (r: Result<WithdrawPlan, PoolError>)
        requires
            old(self).wf(),
        ensures
            final(self).wf(),
            old(self).pending_matches_queue() ==> final(self).pending_matches_queue(),
            match withdraw_error(*old(self), hash, *receiver_id, *withdraw_tokens, current_epoch, *current_account_id) {
                Some(e) => r matches Err(e2) && e2 == e && *final(self) == *old(self),
                None => {
                    let s = old(self).withdrawal_requests.tranches_of(hash)->Some_0;
                    &&& r matches Ok(plan) && plan == withdraw_plan_spec(*old(self), hash, *receiver_id,
                        *withdraw_tokens, current_epoch, *current_account_id)
                    &&& final(self).withdrawal_requests.entries() == old(self).withdrawal_requests.entries().update(
                        old(self).withdrawal_requests.index_of(hash), (hash, after_sweep(s, current_epoch)))
                    &&& *final(self) == (LiquidStakingToken { withdrawal_requests: final(self).withdrawal_requests, ..*old(self) })
                },
            },
    {
        let ghost before = self.withdrawal_requests;
        proof {
            if let Some(s) = self.withdrawal_requests.tranches_of(hash) {
                crate::requests::lemma_swept_nonneg(s, current_epoch);
            }
        }
        if self.withdrawal_requests.is_in_flight(&hash) {
            return Err(PoolError::WithdrawalInProgress);
        }
        if !self.withdrawal_requests.swept_amount_fits_for(current_epoch, &hash) {
            return Err(PoolError::CollapseAmountOverflow);
        }
        if !self.withdrawal_requests.sweep_fits_for(current_epoch, &hash) {
            return Err(PoolError::CollapseResidualOverflow);
        }
        let merged_tranche = match self.withdrawal_requests.preview_sweep(current_epoch, &hash) {
            Some(t) => t,
            None => return Err(PoolError::NothingToWithdraw),
        };
        let amount = merged_tranche.withdrawal_amount;
        let plan = match withdraw_tokens {
            WithdrawTokens::Native => WithdrawPlan::Native { receiver_id: receiver_id.clone(), amount, hash },
            WithdrawTokens::Wnear { storage_deposit, msg, memo, min_gas } => {
                let is_self_withdraw = *receiver_id == *current_account_id;
                if is_self_withdraw && storage_deposit.is_some() {
                    return Err(PoolError::StorageDepositForSelfWithdrawal);
                }
                let storage_to_pay = if merged_tranche.storage_was_paid {
                    0
                } else {
                    match storage_deposit {
                        Some(x) => *x,
                        None => 0,
                    }
                };
                if amount < storage_to_pay {
                    return Err(PoolError::StorageDepositExceedsWithdrawal);
                }
                let amount_to_send = amount - storage_to_pay;
                if amount_to_send < merged_tranche.wnear_residual {
                    return Err(PoolError::ResidualExceedsDeliverable);
                }
                let amount_to_near_deposit = amount_to_send - merged_tranche.wnear_residual;
                if amount_to_near_deposit == 0 && is_self_withdraw {
                    return Err(PoolError::NothingToDeliver);
                }
                let is_call = !is_self_withdraw && msg.is_some();
                WithdrawPlan::Wnear(WnearPlan {
                    hash,
                    receiver_id: receiver_id.clone(),
                    amount_to_send,
                    amount_to_near_deposit,
                    storage_to_pay,
                    is_self_withdraw,
                    is_call,
                    ft_min_gas: calculate_min_gas(*min_gas, is_call),
                    msg: msg.clone(),
                    memo: memo.clone(),
                })
            },
        };
        let locked_amount = self.withdrawal_requests.amount_of_matured_tranches(current_epoch, hash);
        assert(locked_amount == amount);
        proof {
            lemma_sweep_total(before, current_epoch, hash);
        }
        Ok(plan)
    }

    /// Claims every matured tranche queued under the hash of `args` (see
    /// [`Self::withdraw_by_hash`]).
    pub fn withdraw(&mut self, args: &UnstakeMessage, current_epoch: u64, current_account_id: &String) -> (r: Result<WithdrawPlan, PoolError>)
        requires
            old(self).wf(),
        ensures
            final(self).wf(),
            old(self).pending_matches_queue() ==> final(self).pending_matches_queue(),
            !unstake_message_encodable(*args) ==> r == Err::<WithdrawPlan, PoolError>(PoolError::HashFailed) && *final(self) == *old(self),
            unstake_message_encodable(*args) ==> forall|hash: CryptoHash| hash@ == keccak256_of(borsh_unstake_message(*args)) ==>
                match withdraw_error(*old(self), hash, args.receiver_id, args.withdraw_tokens, current_epoch, *current_account_id) {
                    Some(e) => r matches Err(e2) && e2 == e && *final(self) == *old(self),
                    None => {
                        let s = old(self).withdrawal_requests.tranches_of(hash)->Some_0;
                        &&& r matches Ok(plan) && plan == withdraw_plan_spec(*old(self), hash, args.receiver_id,
                            args.withdraw_tokens, current_epoch, *current_account_id)
                        &&& final(self).withdrawal_requests.entries() == old(self).withdrawal_requests.entries().update(
                            old(self).withdrawal_requests.index_of(hash), (hash, after_sweep(s, current_epoch)))
                        &&& *final(self) == (LiquidStakingToken { withdrawal_requests: final(self).withdrawal_requests, ..*old(self) })
                    },
                },
    {
        let hash = match args.hash() {
            Some(h) => h,
            None => return Err(PoolError::HashFailed),
        };
        let r = self.withdraw_by_hash(hash, &args.receiver_id, &args.withdraw_tokens, current_epoch, current_account_id);
        proof {
            assert forall|h: CryptoHash| h@ == keccak256_of(borsh_unstake_message(*args)) implies h == hash by {
                assert(h@ =~= hash@);
            }
        }
        r
    }

    /// After a native transfer: on success the delivered tranche leaves the
    /// queue and `amount` leaves the balance and the pending withdrawals; on
    /// failure the lock is released so the withdrawal can be retried.
    pub fn on_withdraw_native(&mut self, transfer_succeeded: bool, hash: CryptoHash, amount: u128) -> (r: Result<(), PoolError>)
        requires
            old(self).wf(),
        ensures
            final(self).wf(),
            !transfer_succeeded && old(self).pending_matches_queue() ==> final(self).pending_matches_queue(),
            old(self).pending_matches_queue() && old(self).withdrawal_requests.in_flight_amount(hash) == Some(amount)
                ==> final(self).pending_matches_queue(),
            !transfer_succeeded ==> r is Ok
                && final(self).withdrawal_requests.entries() == old(self).withdrawal_requests.released_entries(hash)
                && *final(self) == (LiquidStakingToken { withdrawal_requests: final(self).withdrawal_requests, ..*old(self) }),
            transfer_succeeded && amount > old(self).statistics.latest_total_balance
                ==> r == Err::<(), PoolError>(PoolError::TotalBalanceUnderflow) && *final(self) == *old(self),
            transfer_succeeded && amount <= old(self).statistics.latest_total_balance
                && amount > old(self).statistics.total_pending_withdrawals
                ==> r == Err::<(), PoolError>(PoolError::PendingWithdrawalsUnderflow) && *final(self) == *old(self),
            transfer_succeeded && amount <= old(self).statistics.latest_total_balance
                && amount <= old(self).statistics.total_pending_withdrawals ==> {
                &&& r is Ok
                &&& final(self).withdrawal_requests.entries() == old(self).withdrawal_requests.removed_entries(hash)
                &&& *final(self) == (LiquidStakingToken {
                    statistics: PoolStatistics {
                        latest_total_balance: (old(self).statistics.latest_total_balance - amount) as u128,
                        total_pending_withdrawals: (old(self).statistics.total_pending_withdrawals - amount) as u128,
                        ..old(self).statistics
                    },
                    withdrawal_requests: final(self).withdrawal_requests,
                    ..*old(self)
                })
            },
    {
        proof {
            lemma_released_total(self.withdrawal_requests, hash);
            if self.withdrawal_requests.in_flight_amount(hash) is Some {
                lemma_removed_total(self.withdrawal_requests, hash);
            }
        }
        if !transfer_succeeded {
            self.remove_lock(hash);
            return Ok(());
        }
        if amount > self.statistics.latest_total_balance {
            return Err(PoolError::TotalBalanceUnderflow);
        }
        if amount > self.statistics.total_pending_withdrawals {
            return Err(PoolError::PendingWithdrawalsUnderflow);
        }
        self.withdrawal_requests.remove_request(&hash);
        self.statistics.decrease_total_balance(amount);
        self.statistics.decrease_pending_withdrawals(amount);
        Ok(())
    }

    /// Releases the in-flight lock on `hash` once a withdrawal attempt has
    /// settled.
    pub fn remove_lock(&mut self, hash: CryptoHash)
        requires
            old(self).wf(),
        ensures
            final(self).wf(),
            old(self).pending_matches_queue() ==> final(self).pending_matches_queue(),
            final(self).withdrawal_requests.entries() == old(self).withdrawal_requests.released_entries(hash),
            *final(self) == (LiquidStakingToken { withdrawal_requests: final(self).withdrawal_requests, ..*old(self) }),
    {
        proof {
            lemma_released_total(self.withdrawal_requests, hash);
        }
        self.withdrawal_requests.release_lock(&hash);
    }
}

/// The wNEAR the receiver used: what it reported for a transfer call
/// (capped at what was sent), everything for a plain transfer.
pub open spec fn consumed_spec(is_call: bool, reported_used: u128, amount_to_send: u128) -> u128 {
    if is_call {
        if reported_used < amount_to_send { reported_used } else { amount_to_send }
    } else {
        amount_to_send
    }
}

/// `a + b`, saturating at `u128::MAX`.
pub open spec fn saturating_add_spec(a: u128, b: u128) -> u128 {
    if a + b > u128::MAX { u128::MAX } else { (a + b) as u128 }
}

/// Why the settlement of a wNEAR delivery is refused, if it is.
pub open spec fn settle_error(
    pool: LiquidStakingToken,
    hash: CryptoHash,
    delivered: u128,
    spent_near: u128,
) -> Option<PoolError> {
    match pool.withdrawal_requests.tranches_of(hash) {
        None => Some(PoolError::NoDistribution),
        Some(s) => if locked_count(s) == 0 {
            Some(PoolError::DistributionNotLocked)
        } else if s[first_locked(s)].value.withdrawal_amount < delivered {
            Some(PoolError::DeliveredExceedsClaim)
        } else if pool.statistics.total_pending_withdrawals < delivered {
            Some(PoolError::PendingWithdrawalsUnderflow)
        } else if spent_near > 0 && pool.statistics.latest_total_balance < spent_near {
            Some(PoolError::TotalBalanceUnderflow)
        } else {
            None
        }
    }
}

impl LiquidStakingToken {
    /// After a wNEAR delivery: the in-flight claim shrinks by what was
    /// delivered (used wNEAR plus paid storage); a fully delivered claim
    /// leaves the queue, a partial one keeps the refunded wNEAR as its
    /// residual. Pending withdrawals drop by the delivered amount and the
    /// tracked balance by the NEAR that left the account in this attempt.
    /// Nothing changes when the delivery failed.
    pub fn on_withdraw_wnear(
        &mut self,
        delivery_succeeded: bool,
        reported_used: u128,
        hash: CryptoHash,
        amount_to_send: u128,
        amount_to_near_deposit: u128,
        storage_to_pay: u128,
        is_call: bool,
    ) -> (r: Result<(), PoolError>)
        requires
            old(self).wf(),
        ensures
            final(self).wf(),
            old(self).pending_matches_queue() ==> final(self).pending_matches_queue(),
            !delivery_succeeded ==> r is Ok && *final(self) == *old(self),
            delivery_succeeded ==> {
                let consumed = consumed_spec(is_call, reported_used, amount_to_send);
                let refund = (amount_to_send - consumed) as u128;
                let delivered = saturating_add_spec(consumed, storage_to_pay);
                let spent_near = saturating_add_spec(amount_to_near_deposit, storage_to_pay);
                match settle_error(*old(self), hash, delivered, spent_near) {
                    Some(e) => r == Err::<(), PoolError>(e) && *final(self) == *old(self),
                    None => {
                        let s = old(self).withdrawal_requests.tranches_of(hash)->Some_0;
                        let j = first_locked(s);
                        let t = s[j].value;
                        let new_amount = (t.withdrawal_amount - delivered) as u128;
                        &&& r is Ok
                        &&& if new_amount == 0 {
                            final(self).withdrawal_requests.entries() == old(self).withdrawal_requests.removed_entries(hash)
                        } else {
                            final(self).withdrawal_requests.entries() == old(self).withdrawal_requests.entries().update(
                                old(self).withdrawal_requests.index_of(hash),
                                (hash, s.update(j, Lock {
                                    value: Tranche {
                                        withdrawal_amount: new_amount,
                                        wnear_residual: refund,
                                        storage_was_paid: if storage_to_pay > 0 { true } else { t.storage_was_paid },
                                        ..t
                                    },
                                    locked: true,
                                })),
                            )
                        }
                        &&& *final(self) == (LiquidStakingToken {
                            statistics: PoolStatistics {
                                total_pending_withdrawals: (old(self).statistics.total_pending_withdrawals - delivered) as u128,
                                latest_total_balance: if spent_near > 0 {
                                    (old(self).statistics.latest_total_balance - spent_near) as u128
                                } else {
                                    old(self).statistics.latest_total_balance
                                },
                                ..old(self).statistics
                            },
                            withdrawal_requests: final(self).withdrawal_requests,
                            ..*old(self)
                        })
                    },
                }
            },
    {
        if !delivery_succeeded {
            return Ok(());
        }
        // A receiver reporting more than it was sent must not shrink the
        // refund below zero.
        let consumed = if is_call {
            if reported_used < amount_to_send { reported_used } else { amount_to_send }
        } else {
            amount_to_send
        };
        let refund = amount_to_send - consumed;
        let delivered = consumed.saturating_add(storage_to_pay);
        let spent_near = amount_to_near_deposit.saturating_add(storage_to_pay);
        if !self.withdrawal_requests.is_in_flight(&hash) {
            if self.withdrawal_requests.get_withdrawal_request_tranches(&hash).is_none() {
                return Err(PoolError::NoDistribution);
            }
            return Err(PoolError::DistributionNotLocked);
        }
        let entry = *self.withdrawal_requests.locked_tranche(&hash);
        if entry.withdrawal_amount < delivered {
            return Err(PoolError::DeliveredExceedsClaim);
        }
        if self.statistics.total_pending_withdrawals < delivered {
            return Err(PoolError::PendingWithdrawalsUnderflow);
        }
        if spent_near > 0 && self.statistics.latest_total_balance < spent_near {
            return Err(PoolError::TotalBalanceUnderflow);
        }
        let new_amount = entry.withdrawal_amount - delivered;
        proof {
            crate::requests::lemma_first_locked_bounds(self.withdrawal_requests.tranches_of(hash)->Some_0);
            lemma_removed_total(self.withdrawal_requests, hash);
            lemma_locked_value_total(self.withdrawal_requests, hash, Tranche {
                withdrawal_amount: new_amount,
                wnear_residual: refund,
                storage_was_paid: if storage_to_pay > 0 { true } else { entry.storage_was_paid },
                ..entry
            });
        }
        if new_amount == 0 {
            self.withdrawal_requests.remove_request(&hash);
        } else {
            let ghost before = self.withdrawal_requests;
            let updated = Tranche {
                withdrawal_amount: new_amount,
                wnear_residual: refund,
                storage_was_paid: if storage_to_pay > 0 { true } else { entry.storage_was_paid },
                ..entry
            };
            let slot = self.withdrawal_requests.locked_tranche_mut(&hash);
            *slot = updated;
            proof {
                lemma_locked_update_wf(before, self.withdrawal_requests, hash, updated);
            }
        }
        self.statistics.decrease_pending_withdrawals(delivered);
        if spent_near > 0 {
            self.statistics.decrease_total_balance(spent_near);
        }
        Ok(())
    }
}

} // verus!
