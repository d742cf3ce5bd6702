//! The pool's own state and the decisions of its entry points.
//!
//! The fungible-token ledger, promises and the blockchain environment live
//! outside this module: each function takes the readings it needs (epoch,
//! balances, LST supply, promise outcomes) as arguments and returns what the
//! caller has to mint, burn or schedule. A function that returns an error
//! leaves the state unchanged, as a failed transaction does.

use vstd::prelude::*;
use crate::math::{checked_mul_div_floor, mul_div_spec};
use crate::requests::{CryptoHash, Tranche, WithdrawalRequest, WithdrawalRequests};
use crate::stats::{BPS_DENOMINATOR, PoolStatistics};

verus! {

/// Upper bound of the protocol fee (20%).
pub const MAX_PROTOCOL_FEE_BPS: u16 = 2_000;
/// Gas (in gas units) for a plain `ft_transfer`.
pub const FT_TRANSFER_GAS: u64 = 2_000_000_000_000;
/// Minimum gas (in gas units) for an `ft_transfer_call`.
pub const FT_TRANSFER_CALL_GAS_MIN: u64 = 30_000_000_000_000;
/// Gas (in gas units) for the FT step of a delivery when none is requested.
pub const FT_TRANSFER_GAS_DEFAULT: u64 = 35_000_000_000_000;
/// Gas for the state update that follows a stake action.
pub const MODIFY_STATE_AFTER_STAKE_GAS: u64 = 2_000_000_000_000;
/// Gas for a `storage_deposit` call.
pub const STORAGE_DEPOSIT_GAS: u64 = 2_000_000_000_000;
/// Gas for the callback that follows a restake by `ping`.
pub const ON_PING_RESTAKE_GAS: u64 = 20_000_000_000_000;

/// Why an entry point refuses to proceed.
#[derive(Debug, Clone, Copy, PartialEq, Eq, Structural)]
pub enum PoolError {
    TotalBalanceOverflow,
    ActualBalanceOverflow,
    BalanceDecreased,
    StakeAmountOverflow,
    StakeAmountUnderflow,
    TotalBalanceAddOverflow,
    TotalBalanceUnderflow,
    PendingWithdrawalsOverflow,
    PendingWithdrawalsUnderflow,
    MulDivOverflow,
    TotalSupplyOverflow,
    ProtocolFeeTooHigh,
    StorageDepositTooLarge,
    ZeroStakeAmount,
    ZeroLstAmount,
    NewTotalStakedOverflow,
    NearWithdrawFailed,
    ZeroUnstakeAmount,
    ZeroUnstakeNearAmount,
    UnstakeMoreThanStaked,
    HashFailed,
    WithdrawalAmountOverflow,
    WithdrawalInProgress,
    NothingToWithdraw,
    StorageDepositForSelfWithdrawal,
    StorageDepositExceedsWithdrawal,
    ResidualExceedsDeliverable,
    NothingToDeliver,
    NoDistribution,
    DistributionNotLocked,
    DeliveredExceedsClaim,
    DelegatorsOverflow,
    DelegatorsUnderflow,
    InvalidTokenAccount,
    CollapseAmountOverflow,
    CollapseResidualOverflow,
}

/// The text of the panic message of the contract for `e`.
pub open spec fn message_text(e: PoolError) -> Seq<char> {
    match e {
        PoolError::TotalBalanceOverflow => "Overflow while calculating total balance"@,
        PoolError::ActualBalanceOverflow => "Overflow while calculating actual total balance"@,
        PoolError::BalanceDecreased => "The new total balance should not be less than the old total balance"@,
        PoolError::StakeAmountOverflow => "Overflow while adding stake amount"@,
        PoolError::StakeAmountUnderflow => "Overflow while decreasing total staked amount"@,
        PoolError::TotalBalanceAddOverflow => "Overflow while adding total balance"@,
        PoolError::TotalBalanceUnderflow => "Underflow while removing total balance"@,
        PoolError::PendingWithdrawalsOverflow => "Overflow while adding pending withdrawals"@,
        PoolError::PendingWithdrawalsUnderflow => "Underflow while removing pending withdrawals"@,
        PoolError::MulDivOverflow => "Overflow in mul_div_floor"@,
        PoolError::TotalSupplyOverflow => "Total supply overflow"@,
        PoolError::ProtocolFeeTooHigh => "protocol fee exceeds MAX_PROTOCOL_FEE_BPS, which is 20%"@,
        PoolError::StorageDepositTooLarge => "Storage deposit cannot be greater than the staked amount"@,
        PoolError::ZeroStakeAmount => "The amount of NEAR tokens for staking must be more than 0"@,
        PoolError::ZeroLstAmount => "The amount of LST tokens to be minted must be more than 0"@,
        PoolError::NewTotalStakedOverflow => "Overflow while calculating new total staked amount"@,
        PoolError::NearWithdrawFailed => "Failed to withdraw NEAR from wNEAR"@,
        PoolError::ZeroUnstakeAmount => "Unstake amount must be more than 0"@,
        PoolError::ZeroUnstakeNearAmount => "Unstake amount in NEAR must be more than 0"@,
        PoolError::UnstakeMoreThanStaked => "Attempt to unstake more than staked"@,
        PoolError::HashFailed => "Failed to hash the message"@,
        PoolError::WithdrawalAmountOverflow => "Overflow while merging same-epoch unstake"@,
        PoolError::WithdrawalInProgress => "Unstake request is already in progress"@,
        PoolError::NothingToWithdraw => "There are no available tokens for withdrawal for this message hash"@,
        PoolError::StorageDepositForSelfWithdrawal => "There couldn't be a storage_deposit for the current account withdrawal"@,
        PoolError::StorageDepositExceedsWithdrawal => "Storage deposit exceeds the withdrawal amount"@,
        PoolError::ResidualExceedsDeliverable => "wNEAR residual exceeds the deliverable amount"@,
        PoolError::NothingToDeliver => "Nothing to deliver: claim is already fully held as wNEAR by the contract"@,
        PoolError::NoDistribution => "No distribution for the given hash"@,
        PoolError::DistributionNotLocked => "The user distribution should be locked at this point"@,
        PoolError::DeliveredExceedsClaim => "Inconsistent state: delivered exceeds queued claim"@,
        PoolError::DelegatorsOverflow => "Overflow while increasing delegator"@,
        PoolError::DelegatorsUnderflow => "Underflow while decreasing delegator"@,
        PoolError::InvalidTokenAccount => "Invalid token account ID"@,
        PoolError::CollapseAmountOverflow => "Overflow while collapsing withdrawal amount"@,
        PoolError::CollapseResidualOverflow => "Overflow while collapsing residuals"@,
    }
}

impl PoolError {
    /// The panic message of the contract for this error.
    pub fn message(&self) -> (r: &'static str)
        ensures
            r@ == message_text(*self),
    {
        match self {
            PoolError::TotalBalanceOverflow => "Overflow while calculating total balance",
            PoolError::ActualBalanceOverflow => "Overflow while calculating actual total balance",
            PoolError::BalanceDecreased => "The new total balance should not be less than the old total balance",
            PoolError::StakeAmountOverflow => "Overflow while adding stake amount",
            PoolError::StakeAmountUnderflow => "Overflow while decreasing total staked amount",
            PoolError::TotalBalanceAddOverflow => "Overflow while adding total balance",
            PoolError::TotalBalanceUnderflow => "Underflow while removing total balance",
            PoolError::PendingWithdrawalsOverflow => "Overflow while adding pending withdrawals",
            PoolError::PendingWithdrawalsUnderflow => "Underflow while removing pending withdrawals",
            PoolError::MulDivOverflow => "Overflow in mul_div_floor",
            PoolError::TotalSupplyOverflow => "Total supply overflow",
            PoolError::ProtocolFeeTooHigh => "protocol fee exceeds MAX_PROTOCOL_FEE_BPS, which is 20%",
            PoolError::StorageDepositTooLarge => "Storage deposit cannot be greater than the staked amount",
            PoolError::ZeroStakeAmount => "The amount of NEAR tokens for staking must be more than 0",
            PoolError::ZeroLstAmount => "The amount of LST tokens to be minted must be more than 0",
            PoolError::NewTotalStakedOverflow => "Overflow while calculating new total staked amount",
            PoolError::NearWithdrawFailed => "Failed to withdraw NEAR from wNEAR",
            PoolError::ZeroUnstakeAmount => "Unstake amount must be more than 0",
            PoolError::ZeroUnstakeNearAmount => "Unstake amount in NEAR must be more than 0",
            PoolError::UnstakeMoreThanStaked => "Attempt to unstake more than staked",
            PoolError::HashFailed => "Failed to hash the message",
            PoolError::WithdrawalAmountOverflow => "Overflow while merging same-epoch unstake",
            PoolError::WithdrawalInProgress => "Unstake request is already in progress",
            PoolError::NothingToWithdraw => "There are no available tokens for withdrawal for this message hash",
            PoolError::StorageDepositForSelfWithdrawal => "There couldn't be a storage_deposit for the current account withdrawal",
            PoolError::StorageDepositExceedsWithdrawal => "Storage deposit exceeds the withdrawal amount",
            PoolError::ResidualExceedsDeliverable => "wNEAR residual exceeds the deliverable amount",
            PoolError::NothingToDeliver => "Nothing to deliver: claim is already fully held as wNEAR by the contract",
            PoolError::NoDistribution => "No distribution for the given hash",
            PoolError::DistributionNotLocked => "The user distribution should be locked at this point",
            PoolError::DeliveredExceedsClaim => "Inconsistent state: delivered exceeds queued claim",
            PoolError::DelegatorsOverflow => "Overflow while increasing delegator",
            PoolError::DelegatorsUnderflow => "Underflow while decreasing delegator",
            PoolError::InvalidTokenAccount => "Invalid token account ID",
            PoolError::CollapseAmountOverflow => "Overflow while collapsing withdrawal amount",
            PoolError::CollapseResidualOverflow => "Overflow while collapsing residuals",
        }
    }
}

/// A ratio, as the views report it.
#[derive(Debug, Clone, Copy, PartialEq, Eq, Structural)]
pub struct Ratio<T> {
    pub numerator: T,
    pub denominator: T,
}

/// What a rewards sync found: the reward folded into the stake, and the LST
/// minted to the treasury as the protocol fee.
#[derive(Debug, Clone, Copy, PartialEq, Eq, Structural)]
pub struct SyncOutcome {
    pub total_reward: u128,
    pub fee_lst: u128,
}

/// The pool's state (everything but the fungible-token ledger).
#[derive(Debug)]
pub struct LiquidStakingToken {
    /// The queue of pending withdrawals.
    pub withdrawal_requests: WithdrawalRequests,
    /// The account that owns the contract.
    pub owner_id: String,
    /// The wNEAR contract.
    pub wnear_id: String,
    /// The account that receives the protocol fee.
    pub treasury_id: String,
    /// The public key of the validator the pool stakes with.
    pub validator_public_key: String,
    /// The pool statistics.
    pub statistics: PoolStatistics,
}

/// LST minted for `near` NEAR at the given supply and backing: 1:1 while
/// nothing is minted or nothing backs the supply.
pub open spec fn near_to_lst_spec(near: u128, total_lst: u128, total_staked: u128) -> int {
    if total_lst == 0 || total_staked == 0 {
        near as int
    } else {
        mul_div_spec(near, total_lst, total_staked)
    }
}

/// NEAR owed for `lst` LST at the given supply and backing: zero while
/// nothing is minted.
pub open spec fn lst_to_near_spec(lst: u128, total_lst: u128, total_staked: u128) -> int {
    if total_lst == 0 {
        0
    } else {
        mul_div_spec(lst, total_staked, total_lst)
    }
}

/// The protocol fee taken from `amount` at `fee_bps`, floored.
pub open spec fn fee_spec(amount: u128, fee_bps: u16) -> int {
    mul_div_spec(amount, fee_bps as u128, BPS_DENOMINATOR as u128)
}

/// The result of a rewards sync at `epoch`, given the account's locked and
/// unlocked balances, an amount of the balance that is not part of the pool
/// yet, and the LST supply: the new statistics and the outcome, or the error.
pub open spec fn sync_spec(
    st: PoolStatistics,
    epoch: u64,
    locked: u128,
    balance: u128,
    exclude: u128,
    supply: u128,
) -> Result<(PoolStatistics, SyncOutcome), PoolError> {
    let nothing = SyncOutcome { total_reward: 0, fee_lst: 0 };
    if epoch == st.last_epoch_synced {
        Ok((st, nothing))
    } else if locked + balance > u128::MAX || locked + balance < exclude {
        Err(PoolError::ActualBalanceOverflow)
    } else if locked + balance - exclude < st.latest_total_balance {
        Err(PoolError::BalanceDecreased)
    } else if locked + balance - exclude == st.latest_total_balance {
        Ok((st, nothing))
    } else {
        let current = locked + balance - exclude;
        let reward = current - st.latest_total_balance;
        let fee = fee_spec(reward as u128, st.protocol_fee_bps);
        let users = reward - fee;
        if st.total_staked_amount + users > u128::MAX {
            Err(PoolError::StakeAmountOverflow)
        } else {
            let staked = st.total_staked_amount + users;
            let fee_lst = near_to_lst_spec(fee as u128, supply, staked as u128);
            if fee_lst > u128::MAX {
                Err(PoolError::MulDivOverflow)
            } else if supply + fee_lst > u128::MAX {
                Err(PoolError::TotalSupplyOverflow)
            } else if staked + fee > u128::MAX {
                Err(PoolError::StakeAmountOverflow)
            } else {
                Ok((
                    PoolStatistics {
                        total_staked_amount: (staked + fee) as u128,
                        last_epoch_synced: epoch,
                        latest_total_balance: current as u128,
                        ..st
                    },
                    SyncOutcome { total_reward: reward as u128, fee_lst: fee_lst as u128 },
                ))
            }
        }
    }
}

/// Gas for the FT step of a delivery: [`FT_TRANSFER_GAS_DEFAULT`] when none
/// is requested, otherwise the requested gas but never below the floor for
/// the kind of transfer.
pub open spec fn min_gas_spec(min_gas: Option<u64>, is_call: bool) -> u64 {
    let min = if is_call { FT_TRANSFER_CALL_GAS_MIN } else { FT_TRANSFER_GAS };
    match min_gas {
        Some(g) => if g > min { g } else { min },
        None => FT_TRANSFER_GAS_DEFAULT,
    }
}

/// Gas for the FT step of a delivery: the default when none is requested,
/// otherwise the requested gas, but never below the floor for the kind of
/// transfer.
pub fn calculate_min_gas(min_gas: Option<u64>, is_call: bool) -> (r: u64)
    ensures
        r == min_gas_spec(min_gas, is_call),
{
    let min = if is_call { FT_TRANSFER_CALL_GAS_MIN } else { FT_TRANSFER_GAS };
    match min_gas {
        Some(g) => if g > min { g } else { min },
        None => FT_TRANSFER_GAS_DEFAULT,
    }
}

impl LiquidStakingToken {
    /// The pending-withdrawals figure equals the sum of every amount in the
    /// withdrawal queue.
    pub open spec fn pending_matches_queue(&self) -> bool {
        self.statistics.total_pending_withdrawals as int == crate::requests::queue_total(self.withdrawal_requests.entries())
    }

    /// The invariant of the pool state.
    pub open spec fn wf(&self) -> bool {
        &&& self.withdrawal_requests.wf()
        &&& self.statistics.protocol_fee_bps <= MAX_PROTOCOL_FEE_BPS
    }

    /// A fresh pool, and the LST to mint to the treasury for the NEAR already
    /// staked by the account: `init_locked_balance` (staked) is minted 1:1,
    /// so the rate starts at one; `init_account_balance` is the unlocked
    /// balance.
    pub fn new(
        owner_id: String,
        wnear_id: String,
        treasury_id: String,
        validator_public_key: String,
        init_locked_balance: u128,
        init_account_balance: u128,
    ) -> (r: Result<(Self, u128), PoolError>)
        ensures
            init_locked_balance + init_account_balance > u128::MAX ==> r == Err::<(Self, u128), PoolError>(PoolError::TotalBalanceOverflow),
            init_locked_balance + init_account_balance <= u128::MAX ==> (r matches Ok((pool, genesis_lst)) && {
                &&& genesis_lst == init_locked_balance
                &&& genesis_lst == pool.statistics.total_staked_amount
                &&& pool.wf()
                &&& pool.pending_matches_queue()
                &&& pool.withdrawal_requests.entries().len() == 0
                &&& pool.owner_id == owner_id
                &&& pool.wnear_id == wnear_id
                &&& pool.treasury_id == treasury_id
                &&& pool.validator_public_key == validator_public_key
                &&& pool.statistics == PoolStatistics {
                    latest_total_balance: (init_locked_balance + init_account_balance) as u128,
                    total_staked_amount: init_locked_balance,
                    total_pending_withdrawals: 0,
                    protocol_fee_bps: 0,
                    last_epoch_synced: 0,
                    num_delegators: 0,
                }
            }),
    {
        let latest_total_balance = match init_locked_balance.checked_add(init_account_balance) {
            Some(b) => b,
            None => return Err(PoolError::TotalBalanceOverflow),
        };
        Ok((LiquidStakingToken {
            withdrawal_requests: WithdrawalRequests::new(),
            owner_id,
            wnear_id,
            treasury_id,
            validator_public_key,
            statistics: PoolStatistics {
                latest_total_balance,
                total_staked_amount: init_locked_balance,
                total_pending_withdrawals: 0,
                protocol_fee_bps: 0,
                last_epoch_synced: 0,
                num_delegators: 0,
            },
        }, init_locked_balance))
    }

    /// Returns the number of delegators in the pool.
    pub fn get_number_of_accounts(&self) -> (r: u64)
        ensures
            r == self.statistics.num_delegators,
    {
        self.statistics.num_delegators
    }

    /// The current exchange rate of LST to NEAR: `1/1` while no LST exists,
    /// otherwise backing NEAR over LST supply.
    pub fn get_exchange_rate(&self, total_lst_supply: u128) -> (r: Ratio<u128>)
        ensures
            r == (if total_lst_supply == 0 {
                Ratio { numerator: 1u128, denominator: 1u128 }
            } else {
                Ratio { numerator: self.statistics.total_staked_amount, denominator: total_lst_supply }
            }),
    {
        if total_lst_supply == 0 {
            Ratio { numerator: 1, denominator: 1 }
        } else {
            Ratio { numerator: self.statistics.total_staked_amount, denominator: total_lst_supply }
        }
    }

    /// The protocol fee as a fraction of the reward.
    pub fn get_reward_fee_fraction(&self) -> (r: Ratio<u16>)
        ensures
            r == (Ratio { numerator: self.statistics.protocol_fee_bps, denominator: BPS_DENOMINATOR }),
    {
        Ratio { numerator: self.statistics.protocol_fee_bps, denominator: BPS_DENOMINATOR }
    }

    /// The public key of the validator the pool stakes with.
    pub fn get_staking_key(&self) -> (r: String)
        ensures
            r == self.validator_public_key,
    {
        self.validator_public_key.clone()
    }

    /// The account that owns the contract.
    pub fn get_owner_id(&self) -> (r: String)
        ensures
            r == self.owner_id,
    {
        self.owner_id.clone()
    }

    /// The account that receives the protocol fee.
    pub fn get_treasury_id(&self) -> (r: String)
        ensures
            r == self.treasury_id,
    {
        self.treasury_id.clone()
    }

    /// The NEAR backing the LST supply.
    pub fn get_total_staked_balance(&self) -> (r: u128)
        ensures
            r == self.statistics.total_staked_amount,
    {
        self.statistics.total_staked_amount
    }

    /// The NEAR queued for withdrawal.
    pub fn get_total_pending_withdrawals(&self) -> (r: u128)
        ensures
            r == self.statistics.total_pending_withdrawals,
    {
        self.statistics.total_pending_withdrawals
    }

    /// The last recorded `locked + unlocked` balance of the account.
    pub fn get_total_balance(&self) -> (r: u128)
        ensures
            r == self.statistics.latest_total_balance,
    {
        self.statistics.latest_total_balance
    }

    /// Every tranche queued under `hash`, or `None` if it has no entry.
    pub fn get_withdrawal_request_tranches(&self, hash: CryptoHash) -> (r: Option<Vec<Tranche>>)
        requires
            self.wf(),
        ensures
            match self.withdrawal_requests.tranches_of(hash) {
                Some(s) => r matches Some(v) && v@ == crate::requests::values(s),
                None => r is None,
            },
    {
        self.withdrawal_requests.get_withdrawal_request_tranches(&hash)
    }

    /// Paginated dump of the queue (see
    /// [`WithdrawalRequests::get_withdrawal_requests`]).
    pub fn get_withdrawal_requests(&self, skip: usize, limit: usize) -> (r: Vec<WithdrawalRequest>)
        requires
            self.wf(),
        ensures
            ({
                let es = self.withdrawal_requests.entries();
                let start = crate::requests::page_start(es.len() as int, skip);
                let end = crate::requests::page_end(es.len() as int, skip, limit);
                &&& r@.len() == end - start
                &&& forall|k: int| 0 <= k < r@.len() ==> {
                    &&& (#[trigger] r@[k]).hash@ == crate::requests::bs58_of(es[start + k].0@)
                    &&& r@[k].tranches@ == crate::requests::values(es[start + k].1)
                }
            }),
    {
        self.withdrawal_requests.get_withdrawal_requests(skip, limit)
    }

    /// Paginated list of the hashes ready to be withdrawn at `current_epoch`.
    pub fn get_hashes_available_for_withdrawal(&self, skip: usize, limit: usize, current_epoch: u64) -> (r: Vec<CryptoHash>)
        requires
            self.wf(),
        ensures
            ({
                let a = crate::requests::available(self.withdrawal_requests.entries(), current_epoch);
                r@ == a.subrange(crate::requests::page_start(a.len() as int, skip), crate::requests::page_end(a.len() as int, skip, limit))
            }),
    {
        self.withdrawal_requests.get_hashes_available_for_withdrawal(skip, limit, current_epoch)
    }

    /// The number of distinct hashes in the queue.
    pub fn get_withdrawal_requests_count(&self) -> (r: u32)
        requires
            self.wf(),
        ensures
            r == self.withdrawal_requests.entries().len(),
    {
        self.withdrawal_requests.len()
    }

    /// Updates the protocol fee; refused above [`MAX_PROTOCOL_FEE_BPS`].
    pub fn set_protocol_fee_bps(&mut self, fee_bps: u16) -> (r: Result<(), PoolError>)
        requires
            old(self).wf(),
        ensures
            final(self).wf(),
            old(self).pending_matches_queue() ==> final(self).pending_matches_queue(),
            fee_bps > MAX_PROTOCOL_FEE_BPS ==> r == Err::<(), PoolError>(PoolError::ProtocolFeeTooHigh)
                && *final(self) == *old(self),
            fee_bps <= MAX_PROTOCOL_FEE_BPS ==> r is Ok && *final(self) == (LiquidStakingToken {
                statistics: PoolStatistics { protocol_fee_bps: fee_bps, ..old(self).statistics },
                ..*old(self)
            }),
    {
        if fee_bps > MAX_PROTOCOL_FEE_BPS {
            return Err(PoolError::ProtocolFeeTooHigh);
        }
        self.statistics.protocol_fee_bps = fee_bps;
        Ok(())
    }

    /// Replaces the validator public key.
    pub fn set_validator_public_key(&mut self, validator_public_key: String)
        requires
            old(self).wf(),
        ensures
            final(self).wf(),
            old(self).pending_matches_queue() ==> final(self).pending_matches_queue(),
            *final(self) == (LiquidStakingToken { validator_public_key, ..*old(self) }),
    {
        self.validator_public_key = validator_public_key;
    }

    /// LST minted for `near_tokens` NEAR at the current rate, or `None` when
    /// the amount does not fit in a `u128`.
    pub fn near_to_lst(&self, near_tokens: u128, total_lst_supply: u128) -> (r: Option<u128>)
        ensures
            r == (if near_to_lst_spec(near_tokens, total_lst_supply, self.statistics.total_staked_amount) > u128::MAX {
                None::<u128>
            } else {
                Some(near_to_lst_spec(near_tokens, total_lst_supply, self.statistics.total_staked_amount) as u128)
            }),
    {
        let total_staked = self.statistics.total_staked_amount;
        if total_lst_supply == 0 || total_staked == 0 {
            return Some(near_tokens);
        }
        checked_mul_div_floor(near_tokens, total_lst_supply, total_staked)
    }

    /// NEAR owed for `lst_tokens` LST at the current rate (zero while no LST
    /// exists), or `None` when the amount does not fit in a `u128`.
    pub fn lst_to_near(&self, lst_tokens: u128, total_lst_supply: u128) -> (r: Option<u128>)
        ensures
            r == (if lst_to_near_spec(lst_tokens, total_lst_supply, self.statistics.total_staked_amount) > u128::MAX {
                None::<u128>
            } else {
                Some(lst_to_near_spec(lst_tokens, total_lst_supply, self.statistics.total_staked_amount) as u128)
            }),
    {
        if total_lst_supply == 0 {
            return Some(0);
        }
        checked_mul_div_floor(lst_tokens, self.statistics.total_staked_amount, total_lst_supply)
    }

    /// Splits a reward into the part that stays with the users and the
    /// protocol fee.
    pub fn split_protocol_fee(&self, amount: u128) -> (r: (u128, u128))
        requires
            self.wf(),
        ensures
            r.1 == fee_spec(amount, self.statistics.protocol_fee_bps),
            r.0 + r.1 == amount,
    {
        if self.statistics.protocol_fee_bps == 0 {
            proof {
                assert(fee_spec(amount, 0) == 0) by (nonlinear_arith);
            }
            return (amount, 0);
        }
        let bps = self.statistics.protocol_fee_bps;
        proof {
            assert(fee_spec(amount, bps) <= amount) by (nonlinear_arith)
                requires
                    fee_spec(amount, bps) == (amount * (bps as u128)) / 10000,
                    bps <= 2000,
            ;
        }
        let fee = match checked_mul_div_floor(amount, bps as u128, BPS_DENOMINATOR as u128) {
            Some(f) => f,
            None => 0,
        };
        (amount - fee, fee)
    }

    /// Folds rewards accrued since the last sync into the stake (lifting the
    /// exchange rate) and computes the protocol fee to mint to the treasury.
    /// A no-op in the epoch of the last sync or when nothing accrued.
    pub fn sync_rewards_internal(
        &mut self,
        current_epoch: u64,
        account_locked_balance: u128,
        account_balance: u128,
        amount_to_exclude: Option<u128>,
        total_lst_supply: u128,
    ) -> (r: Result<SyncOutcome, PoolError>)
        requires
            old(self).wf(),
        ensures
            final(self).wf(),
            old(self).pending_matches_queue() ==> final(self).pending_matches_queue(),
            ({
                let exclude = match amount_to_exclude { Some(x) => x, None => 0 };
                match sync_spec(old(self).statistics, current_epoch, account_locked_balance, account_balance, exclude, total_lst_supply) {
                    Ok((st, out)) => r == Ok::<SyncOutcome, PoolError>(out)
                        && *final(self) == (LiquidStakingToken { statistics: st, ..*old(self) }),
                    Err(e) => r == Err::<SyncOutcome, PoolError>(e) && *final(self) == *old(self),
                }
            }),
    {
        let nothing = SyncOutcome { total_reward: 0, fee_lst: 0 };
        if current_epoch == self.statistics.last_epoch_synced {
            return Ok(nothing);
        }
        let exclude = match amount_to_exclude {
            Some(x) => x,
            None => 0,
        };
        let current_total_balance = match account_locked_balance.checked_add(account_balance) {
            Some(b) => match b.checked_sub(exclude) {
                Some(c) => c,
                None => return Err(PoolError::ActualBalanceOverflow),
            },
            None => return Err(PoolError::ActualBalanceOverflow),
        };
        let latest_total_balance = self.statistics.latest_total_balance;
        if current_total_balance < latest_total_balance {
            return Err(PoolError::BalanceDecreased);
        }
        let total_reward = current_total_balance - latest_total_balance;
        if total_reward == 0 {
            return Ok(nothing);
        }
        let (users_reward, fee_near) = self.split_protocol_fee(total_reward);
        if self.statistics.total_staked_amount > u128::MAX - users_reward {
            return Err(PoolError::StakeAmountOverflow);
        }
        let mut stats = self.statistics;
        stats.increase_stake_amount(users_reward);
        let staked = stats.total_staked_amount;
        let fee_lst = if total_lst_supply == 0 || staked == 0 {
            fee_near
        } else {
            match checked_mul_div_floor(fee_near, total_lst_supply, staked) {
                Some(x) => x,
                None => return Err(PoolError::MulDivOverflow),
            }
        };
        if total_lst_supply > u128::MAX - fee_lst {
            return Err(PoolError::TotalSupplyOverflow);
        }
        if staked > u128::MAX - fee_near {
            return Err(PoolError::StakeAmountOverflow);
        }
        stats.increase_stake_amount(fee_near);
        stats.last_epoch_synced = current_epoch;
        stats.latest_total_balance = current_total_balance;
        self.statistics = stats;
        Ok(SyncOutcome { total_reward, fee_lst })
    }

    /// Publicly callable rewards sync. When rewards were folded in, the
    /// caller restakes the new total (`Some` of it is returned).
    pub fn ping(
        &mut self,
        current_epoch: u64,
        account_locked_balance: u128,
        account_balance: u128,
        total_lst_supply: u128,
    ) -> (r: Result<(SyncOutcome, Option<u128>), PoolError>)
        requires
            old(self).wf(),
        ensures
            final(self).wf(),
            old(self).pending_matches_queue() ==> final(self).pending_matches_queue(),
            match sync_spec(old(self).statistics, current_epoch, account_locked_balance, account_balance, 0, total_lst_supply) {
                Ok((st, out)) => {
                    &&& *final(self) == (LiquidStakingToken { statistics: st, ..*old(self) })
                    &&& r == Ok::<(SyncOutcome, Option<u128>), PoolError>((out,
                        if out.total_reward == 0 { None } else { Some(st.total_staked_amount) }))
                },
                Err(e) => r == Err::<(SyncOutcome, Option<u128>), PoolError>(e) && *final(self) == *old(self),
            },
    {
        let out = self.sync_rewards_internal(current_epoch, account_locked_balance, account_balance, None, total_lst_supply)?;
        if out.total_reward == 0 {
            Ok((out, None))
        } else {
            Ok((out, Some(self.statistics.total_staked_amount)))
        }
    }

    /// After a restake by `ping`: whether to unstake everything (the restake
    /// failed while NEAR is still locked).
    pub fn on_ping_restake(&self, restake_succeeded: bool, account_locked_balance: u128) -> (r: bool)
        ensures
            r == (!restake_succeeded && account_locked_balance > 0),
    {
        !restake_succeeded && account_locked_balance > 0
    }
}

} // verus!
