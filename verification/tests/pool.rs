use liquid_staking_token::messages::{DepositToken, StakeMessage, UnstakeMessage, UnstakeTrigger, WithdrawTokens};
use liquid_staking_token::pool::{
    calculate_min_gas, LiquidStakingToken, PoolError, Ratio, SyncOutcome, FT_TRANSFER_CALL_GAS_MIN, FT_TRANSFER_GAS,
    FT_TRANSFER_GAS_DEFAULT,
};
use liquid_staking_token::requests::{CryptoHash, Tranche};
use liquid_staking_token::staking::StakeFollowUp;
use liquid_staking_token::withdrawal::WithdrawPlan;

const POOL: &str = "pool.near";

fn pool(locked: u128, unlocked: u128) -> LiquidStakingToken {
    LiquidStakingToken::new(
        String::from("owner.near"),
        String::from("wrap.near"),
        String::from("treasury.near"),
        String::from("ed25519:validator"),
        locked,
        unlocked,
    )
    .unwrap()
    .0
}

fn stake_msg(receiver: &str) -> StakeMessage {
    StakeMessage {
        receiver_id: String::from(receiver),
        msg: None,
        memo: None,
        storage_deposit: None,
        min_gas: None,
        refund_message: None,
    }
}

fn native_unstake(receiver: &str) -> UnstakeMessage {
    UnstakeMessage { receiver_id: String::from(receiver), withdraw_tokens: WithdrawTokens::Native }
}

fn wnear_unstake(receiver: &str, storage_deposit: Option<u128>, msg: Option<&str>) -> UnstakeMessage {
    UnstakeMessage {
        receiver_id: String::from(receiver),
        withdraw_tokens: WithdrawTokens::Wnear {
            storage_deposit,
            msg: msg.map(String::from),
            memo: None,
            min_gas: None,
        },
    }
}

fn queued_total(p: &LiquidStakingToken) -> u128 {
    p.withdrawal_requests
        .requests
        .iter()
        .map(|(_, v)| v.iter().map(|l| l.value.withdrawal_amount).sum::<u128>())
        .sum()
}

/// Queues `amount` NEAR for `msg` at `epoch`, as a completed unstake does.
fn queue(p: &mut LiquidStakingToken, msg: &UnstakeMessage, amount: u128, epoch: u64) -> CryptoHash {
    let h = msg.hash().unwrap();
    assert_eq!(p.on_unstake(true, amount, amount, h, UnstakeTrigger::UserRequest, epoch), Ok(0));
    h
}

#[test]
fn new_pool_tracks_both_balances_and_stakes_the_locked_one() {
    let p = pool(1000, 500);
    assert_eq!(p.get_total_balance(), 1500);
    assert_eq!(p.get_total_staked_balance(), 1000);
    assert_eq!(p.get_total_pending_withdrawals(), 0);
    assert_eq!(p.get_number_of_accounts(), 0);
    assert_eq!(p.get_withdrawal_requests_count(), 0);
    assert_eq!(p.get_owner_id(), "owner.near");
    assert_eq!(p.get_treasury_id(), "treasury.near");
    assert_eq!(p.get_staking_key(), "ed25519:validator");
    assert_eq!(p.get_reward_fee_fraction(), Ratio { numerator: 0, denominator: 10_000 });
}

#[test]
fn new_pool_refuses_a_balance_that_overflows() {
    let r = LiquidStakingToken::new(
        String::from("o"),
        String::from("w"),
        String::from("t"),
        String::from("k"),
        u128::MAX,
        1,
    );
    assert_eq!(r.err(), Some(PoolError::TotalBalanceOverflow));
    let (_, genesis_lst) = LiquidStakingToken::new(
        String::from("o"),
        String::from("w"),
        String::from("t"),
        String::from("k"),
        700,
        300,
    )
    .unwrap();
    assert_eq!(genesis_lst, 700);
    // Minting the genesis LST to the treasury starts the rate at one.
    let (q, genesis_lst) = LiquidStakingToken::new(
        String::from("o"),
        String::from("w"),
        String::from("t"),
        String::from("k"),
        700,
        300,
    )
    .unwrap();
    assert_eq!(q.get_exchange_rate(genesis_lst), Ratio { numerator: 700, denominator: 700 });
    assert_eq!(q.near_to_lst(123, genesis_lst), Some(123));
    assert_eq!(q.lst_to_near(123, genesis_lst), Some(123));
    assert_eq!(PoolError::TotalBalanceOverflow.message(), "Overflow while calculating total balance");
}

#[test]
fn exchange_rate_is_one_to_one_without_supply() {
    let p = pool(1000, 0);
    assert_eq!(p.get_exchange_rate(0), Ratio { numerator: 1, denominator: 1 });
    assert_eq!(p.get_exchange_rate(500), Ratio { numerator: 1000, denominator: 500 });
    assert_eq!(p.near_to_lst(77, 0), Some(77));
    assert_eq!(p.lst_to_near(77, 0), Some(0));
}

#[test]
fn conversion_rounds_down_in_both_directions() {
    let p = pool(110, 0);
    assert_eq!(p.near_to_lst(10, 100), Some(9));
    assert_eq!(p.lst_to_near(9, 100), Some(9));
    assert_eq!(p.lst_to_near(100, 100), Some(110));
}

#[test]
fn conversion_reports_overflow() {
    let p = pool(1, 0);
    assert_eq!(p.near_to_lst(2, u128::MAX), None);
    assert_eq!(p.lst_to_near(u128::MAX, 1), Some(u128::MAX));
}

#[test]
fn staking_then_unstaking_never_returns_more() {
    // supply 100 backed by 110; stake 10, then unstake what was minted.
    let mut p = pool(110, 0);
    let lst = p.near_to_lst(10, 100).unwrap();
    p.modify_state_after_stake(10, 10, false).unwrap();
    let back = p.lst_to_near(lst, 100 + lst).unwrap();
    assert!(back <= 10);
    assert_eq!(back, 9);
}

#[test]
fn rate_above_one_mints_less_and_redeems_more() {
    let p = pool(1_100, 0);
    let minted = p.near_to_lst(1_000, 1_000).unwrap();
    let redeemed = p.lst_to_near(1_000, 1_000).unwrap();
    assert!(minted < 1_000);
    assert!(redeemed >= 1_000);
    assert_eq!(minted, 909);
    assert_eq!(redeemed, 1_100);
}

#[test]
fn protocol_fee_is_capped() {
    let mut p = pool(1000, 0);
    assert_eq!(p.set_protocol_fee_bps(2001), Err(PoolError::ProtocolFeeTooHigh));
    assert_eq!(p.get_reward_fee_fraction().numerator, 0);
    assert_eq!(p.set_protocol_fee_bps(2000), Ok(()));
    assert_eq!(p.get_reward_fee_fraction(), Ratio { numerator: 2000, denominator: 10_000 });
    assert_eq!(p.split_protocol_fee(1_001), (801, 200));
}

#[test]
fn validator_key_can_be_replaced() {
    let mut p = pool(1000, 0);
    p.set_validator_public_key(String::from("ed25519:other"));
    assert_eq!(p.get_staking_key(), "ed25519:other");
}

#[test]
fn sync_folds_rewards_and_mints_the_fee() {
    let mut p = pool(1000, 500);
    p.set_protocol_fee_bps(1000).unwrap();
    // balance grew from 1500 to 1600: reward 100, fee 10, users 90.
    let out = p.sync_rewards_internal(1, 1000, 600, None, 1000).unwrap();
    assert_eq!(out, SyncOutcome { total_reward: 100, fee_lst: 9 });
    assert_eq!(p.get_total_staked_balance(), 1100);
    assert_eq!(p.get_total_balance(), 1600);
    assert_eq!(p.statistics.last_epoch_synced, 1);
}

#[test]
fn sync_runs_once_per_epoch() {
    let mut p = pool(1000, 500);
    p.sync_rewards_internal(1, 1000, 600, None, 1000).unwrap();
    let before = p.statistics;
    let out = p.sync_rewards_internal(1, 1000, 900, None, 1000).unwrap();
    assert_eq!(out, SyncOutcome { total_reward: 0, fee_lst: 0 });
    assert_eq!(p.statistics, before);
}

#[test]
fn sync_never_lowers_the_rate() {
    let mut p = pool(1000, 500);
    p.set_protocol_fee_bps(2000).unwrap();
    let supply: u128 = 1000;
    let staked_before = p.get_total_staked_balance();
    let out = p.sync_rewards_internal(3, 1000, 777, None, supply).unwrap();
    let staked_after = p.get_total_staked_balance();
    // staked_after / (supply + fee_lst) >= staked_before / supply
    assert!(staked_after * supply >= staked_before * (supply + out.fee_lst));
}

#[test]
fn sync_refusals() {
    let mut p = pool(1000, 500);
    assert_eq!(p.sync_rewards_internal(1, 1000, 400, None, 1000), Err(PoolError::BalanceDecreased));
    assert_eq!(p.sync_rewards_internal(1, u128::MAX, 1, None, 1000), Err(PoolError::ActualBalanceOverflow));
    assert_eq!(p.sync_rewards_internal(1, 1000, 500, Some(2000), 1000), Err(PoolError::ActualBalanceOverflow));
    p.set_protocol_fee_bps(1000).unwrap();
    assert_eq!(
        p.sync_rewards_internal(1, 1000, 600, None, u128::MAX - 5),
        Err(PoolError::TotalSupplyOverflow)
    );
    assert_eq!(p.get_total_balance(), 1500);
    // The contract's own stake raised the backing above the tracked balance.
    let mut q = pool(u128::MAX - 200, 0);
    q.modify_state_after_stake(150, 0, true).unwrap();
    assert_eq!(q.sync_rewards_internal(1, u128::MAX - 200, 100, None, 1), Err(PoolError::StakeAmountOverflow));
}

#[test]
fn ping_asks_for_a_restake_only_after_rewards() {
    let mut p = pool(1000, 500);
    assert_eq!(p.ping(1, 1000, 500, 1000), Ok((SyncOutcome { total_reward: 0, fee_lst: 0 }, None)));
    let (out, restake) = p.ping(2, 1000, 550, 1000).unwrap();
    assert_eq!(out.total_reward, 50);
    assert_eq!(restake, Some(1050));
    assert!(p.on_ping_restake(false, 10));
    assert!(!p.on_ping_restake(false, 0));
    assert!(!p.on_ping_restake(true, 10));
}

#[test]
fn stake_plans_the_mint_after_the_sync() {
    let mut p = pool(1000, 0);
    let (out, plan) = p
        .stake(&String::from("alice.near"), &String::from(POOL), 100, 1, 1000, 100, 1000, &stake_msg("alice.near"))
        .unwrap();
    assert_eq!(out.total_reward, 0);
    assert_eq!(plan.stake_amount, 100);
    assert_eq!(plan.lst_tokens, 100);
    assert_eq!(plan.new_total_staked_amount, 1100);
    assert!(!plan.then_on_stake_and_deposit);
    assert!(!plan.is_contract_staking);
    p.modify_state_after_stake(plan.stake_amount, plan.deposit_amount, plan.is_contract_staking).unwrap();
    assert_eq!(p.get_total_staked_balance(), 1100);
    assert_eq!(p.get_total_balance(), 1100);
}

#[test]
fn stake_takes_the_storage_deposit_first() {
    let p = pool(1000, 0);
    let mut args = stake_msg("alice.near");
    args.storage_deposit = Some(10);
    args.msg = Some(String::from("go"));
    let plan = p.stake_and_deposit(&args, 110, DepositToken::Native, false, 1000).unwrap();
    assert_eq!(plan.stake_amount, 100);
    assert_eq!(plan.lst_tokens, 100);
    assert!(plan.then_on_stake_and_deposit);
    assert_eq!(p.stake_and_deposit(&args, 5, DepositToken::Native, false, 1000), Err(PoolError::StorageDepositTooLarge));
    assert_eq!(p.stake_and_deposit(&args, 10, DepositToken::Native, false, 1000), Err(PoolError::ZeroStakeAmount));
}

#[test]
fn stake_refusals() {
    let p = pool(1000, 0);
    let args = stake_msg("alice.near");
    assert_eq!(p.stake_and_deposit(&args, 1, DepositToken::Native, false, 1), Err(PoolError::ZeroLstAmount));
    let q = pool(1, 0);
    assert_eq!(q.stake_and_deposit(&args, 2, DepositToken::Native, false, u128::MAX), Err(PoolError::MulDivOverflow));
    let r = pool(u128::MAX - 1, 0);
    assert_eq!(r.stake_and_deposit(&args, 5, DepositToken::Wnear, false, 0), Err(PoolError::NewTotalStakedOverflow));
    let plan = p.stake_and_deposit(&args, 5, DepositToken::Wnear, false, 1000).unwrap();
    assert!(plan.then_on_stake_and_deposit);
}

#[test]
fn wnear_stake_needs_a_successful_unwrap() {
    let mut p = pool(1000, 0);
    let args = stake_msg("alice.near");
    assert_eq!(p.on_near_withdraw(false, 50, 1, 1000, 50, 1000, &args), Err(PoolError::NearWithdrawFailed));
    let (_, plan) = p.on_near_withdraw(true, 50, 1, 1000, 50, 1000, &args).unwrap();
    assert_eq!(plan.lst_tokens, 50);
    assert!(plan.then_on_stake_and_deposit);
}

#[test]
fn state_update_after_stake_refusals() {
    let mut p = pool(1000, 0);
    assert_eq!(p.modify_state_after_stake(1, u128::MAX, false), Err(PoolError::TotalBalanceAddOverflow));
    assert_eq!(p.modify_state_after_stake(u128::MAX, 1, false), Err(PoolError::StakeAmountOverflow));
    assert_eq!(p.modify_state_after_stake(5, u128::MAX, true), Ok(()));
    assert_eq!(p.get_total_balance(), 1000);
    assert_eq!(p.get_total_staked_balance(), 1005);
}

#[test]
fn follow_up_of_a_stake() {
    let p = pool(1000, 0);
    let mut args = stake_msg("alice.near");
    assert_eq!(p.on_stake_and_deposit(false, 42, &args), StakeFollowUp::RefundAsWnear { amount: 42 });
    assert_eq!(p.on_stake_and_deposit(true, 42, &args), StakeFollowUp::Done);
    args.msg = Some(String::from("hello"));
    assert_eq!(
        p.on_stake_and_deposit(true, 42, &args),
        StakeFollowUp::NotifyReceiver { min_gas: FT_TRANSFER_GAS_DEFAULT }
    );
    assert_eq!(p.refund_wnear_deposit(true, 42), 42);
    assert_eq!(p.refund_wnear_deposit(false, 42), 0);
}

#[test]
fn transfer_gas_has_a_floor() {
    assert_eq!(calculate_min_gas(None, false), FT_TRANSFER_GAS_DEFAULT);
    assert_eq!(calculate_min_gas(None, true), 35_000_000_000_000);
    assert_eq!(calculate_min_gas(Some(1), false), FT_TRANSFER_GAS);
    assert_eq!(calculate_min_gas(Some(1), true), FT_TRANSFER_CALL_GAS_MIN);
    assert_eq!(calculate_min_gas(Some(FT_TRANSFER_CALL_GAS_MIN + 7), true), FT_TRANSFER_CALL_GAS_MIN + 7);
}

#[test]
fn unstake_queue_and_native_withdraw_end_to_end() {
    let mut p = pool(1000, 0);
    let msg = native_unstake("bob.near");
    let (_, plan) = p.handle_unstaking(100, &msg, UnstakeTrigger::UserRequest, 1, 1000, 0, 1000).unwrap();
    assert_eq!(plan.unstake_amount, 100);
    assert_eq!(plan.new_total_staked_amount, 900);
    assert_eq!(plan.msg_hash, msg.hash().unwrap());
    p.modify_state_after_unstake(plan.unstake_amount).unwrap();
    assert_eq!(p.get_total_staked_balance(), 900);

    assert_eq!(p.on_unstake(true, 100, 100, plan.msg_hash, UnstakeTrigger::UserRequest, 1), Ok(0));
    assert_eq!(p.get_total_pending_withdrawals(), 100);
    assert_eq!(queued_total(&p), 100);

    // Still cooling down at epoch 4.
    assert_eq!(p.withdraw(&msg, 4, &String::from(POOL)).err(), Some(PoolError::NothingToWithdraw));

    match p.withdraw(&msg, 5, &String::from(POOL)).unwrap() {
        WithdrawPlan::Native { receiver_id, amount, hash } => {
            assert_eq!(receiver_id, "bob.near");
            assert_eq!(amount, 100);
            assert_eq!(hash, plan.msg_hash);
        },
        other => panic!("unexpected plan {other:?}"),
    }
    assert_eq!(p.withdraw(&msg, 5, &String::from(POOL)).err(), Some(PoolError::WithdrawalInProgress));

    assert_eq!(p.on_withdraw_native(true, plan.msg_hash, 100), Ok(()));
    assert_eq!(p.get_total_balance(), 900);
    assert_eq!(p.get_total_pending_withdrawals(), 0);
    assert_eq!(p.get_withdrawal_requests_count(), 0);
    assert_eq!(queued_total(&p), 0);
}

#[test]
fn failed_native_transfer_releases_the_lock_for_a_retry() {
    let mut p = pool(1000, 0);
    let msg = native_unstake("bob.near");
    let h = queue(&mut p, &msg, 100, 1);
    p.withdraw(&msg, 5, &String::from(POOL)).unwrap();
    assert_eq!(p.on_withdraw_native(false, h, 100), Ok(()));
    assert_eq!(p.get_total_pending_withdrawals(), 100);
    match p.withdraw(&msg, 5, &String::from(POOL)).unwrap() {
        WithdrawPlan::Native { amount, .. } => assert_eq!(amount, 100),
        other => panic!("unexpected plan {other:?}"),
    }
}

#[test]
fn native_settlement_refusals() {
    let mut p = pool(50, 0);
    let msg = native_unstake("bob.near");
    let h = queue(&mut p, &msg, 100, 1);
    p.withdraw(&msg, 5, &String::from(POOL)).unwrap();
    assert_eq!(p.on_withdraw_native(true, h, 100), Err(PoolError::TotalBalanceUnderflow));
    assert_eq!(p.on_withdraw_native(true, h, 40), Ok(()));
    let mut q = pool(1000, 0);
    let h2 = queue(&mut q, &msg, 10, 1);
    q.withdraw(&msg, 5, &String::from(POOL)).unwrap();
    assert_eq!(q.on_withdraw_native(true, h2, 20), Err(PoolError::PendingWithdrawalsUnderflow));
}

#[test]
fn unstake_refusals() {
    let mut p = pool(1000, 0);
    let msg = native_unstake("bob.near");
    assert_eq!(
        p.handle_unstaking(0, &msg, UnstakeTrigger::UserRequest, 1, 1000, 0, 1000).err(),
        Some(PoolError::ZeroUnstakeAmount)
    );
    assert_eq!(
        p.handle_unstaking(1, &msg, UnstakeTrigger::UserRequest, 1, 1000, 0, 1_000_000).err(),
        Some(PoolError::ZeroUnstakeNearAmount)
    );
    assert_eq!(
        p.handle_unstaking(2000, &msg, UnstakeTrigger::UserRequest, 1, 1000, 0, 1000).err(),
        Some(PoolError::UnstakeMoreThanStaked)
    );
    assert_eq!(
        p.handle_unstaking(u128::MAX, &msg, UnstakeTrigger::UserRequest, 1, 1000, 0, 1).err(),
        Some(PoolError::MulDivOverflow)
    );
    assert_eq!(p.modify_state_after_unstake(1001), Err(PoolError::StakeAmountUnderflow));
}

#[test]
fn failed_unstake_refunds_only_user_requests() {
    let mut p = pool(1000, 0);
    let h = native_unstake("bob.near").hash().unwrap();
    assert_eq!(p.on_unstake(false, 7, 7, h, UnstakeTrigger::UserRequest, 1), Ok(7));
    assert_eq!(p.on_unstake(false, 7, 7, h, UnstakeTrigger::RefundByContract, 1), Ok(0));
    assert_eq!(p.get_total_pending_withdrawals(), 0);
}

#[test]
fn queueing_refusals() {
    let mut p = pool(1000, 0);
    let h1 = native_unstake("a.near").hash().unwrap();
    let h2 = native_unstake("b.near").hash().unwrap();
    assert_eq!(p.on_unstake(true, 1, 1, h1, UnstakeTrigger::UserRequest, 10), Ok(0));
    assert_eq!(
        p.on_unstake(true, 1, u128::MAX, h1, UnstakeTrigger::UserRequest, 10),
        Err(PoolError::WithdrawalAmountOverflow)
    );
    assert_eq!(
        p.on_unstake(true, 1, u128::MAX, h2, UnstakeTrigger::UserRequest, 10),
        Err(PoolError::PendingWithdrawalsOverflow)
    );
    assert_eq!(p.get_total_pending_withdrawals(), 1);
}

#[test]
fn refunded_lst_is_unstaked() {
    let mut p = pool(1000, 0);
    let msg = Some(native_unstake("bob.near"));
    assert!(matches!(p.on_ft_on_transfer(10, 10, &msg, 1, 1000, 0, 1000), Ok(None)));
    assert!(matches!(p.on_ft_on_transfer(10, 20, &msg, 1, 1000, 0, 1000), Ok(None)));
    // Without a refund message the refunded LST stays with the receiver.
    assert!(matches!(p.on_ft_on_transfer(10, 4, &None, 1, 1000, 0, 1000), Ok(None)));
    assert_eq!(p.get_total_staked_balance(), 1000);
    let (_, plan) = p.on_ft_on_transfer(10, 4, &msg, 1, 1000, 0, 1000).unwrap().unwrap();
    assert_eq!(plan.lst_amount, 6);
    assert_eq!(plan.unstake_amount, 6);
    assert_eq!(plan.trigger, UnstakeTrigger::RefundByContract);
}

#[test]
fn wnear_withdraw_partial_refund_then_retry() {
    let mut p = pool(1000, 0);
    let msg = wnear_unstake("bob.near", Some(10), Some("deposit"));
    let h = queue(&mut p, &msg, 100, 1);

    let w = match p.withdraw(&msg, 5, &String::from(POOL)).unwrap() {
        WithdrawPlan::Wnear(w) => w,
        other => panic!("unexpected plan {other:?}"),
    };
    assert_eq!(w.amount_to_send, 90);
    assert_eq!(w.amount_to_near_deposit, 90);
    assert_eq!(w.storage_to_pay, 10);
    assert!(w.is_call);
    assert!(!w.is_self_withdraw);
    assert_eq!(w.ft_min_gas, FT_TRANSFER_GAS_DEFAULT);

    // The receiver used 50 of the 90 and refunded 40.
    assert_eq!(
        p.on_withdraw_wnear(true, 50, h, w.amount_to_send, w.amount_to_near_deposit, w.storage_to_pay, w.is_call),
        Ok(())
    );
    assert_eq!(p.get_total_pending_withdrawals(), 40);
    assert_eq!(p.get_total_balance(), 900);
    assert_eq!(queued_total(&p), 40);
    let left: Vec<Tranche> = p.get_withdrawal_request_tranches(h).unwrap();
    assert_eq!(left.len(), 1);
    assert_eq!(left[0].withdrawal_amount, 40);
    assert_eq!(left[0].wnear_residual, 40);
    assert!(left[0].storage_was_paid);

    p.remove_lock(h);
    let w2 = match p.withdraw(&msg, 5, &String::from(POOL)).unwrap() {
        WithdrawPlan::Wnear(w) => w,
        other => panic!("unexpected plan {other:?}"),
    };
    assert_eq!(w2.storage_to_pay, 0);
    assert_eq!(w2.amount_to_send, 40);
    assert_eq!(w2.amount_to_near_deposit, 0);
    assert_eq!(
        p.on_withdraw_wnear(true, 40, h, w2.amount_to_send, w2.amount_to_near_deposit, w2.storage_to_pay, w2.is_call),
        Ok(())
    );
    assert_eq!(p.get_total_pending_withdrawals(), 0);
    assert_eq!(p.get_total_balance(), 900);
    assert!(p.get_withdrawal_request_tranches(h).is_none());
}

#[test]
fn wnear_withdraw_refusals() {
    let mut p = pool(1000, 0);
    let to_self = wnear_unstake(POOL, Some(10), None);
    queue(&mut p, &to_self, 100, 1);
    assert_eq!(
        p.withdraw(&to_self, 5, &String::from(POOL)).err(),
        Some(PoolError::StorageDepositForSelfWithdrawal)
    );

    let greedy = wnear_unstake("bob.near", Some(500), None);
    queue(&mut p, &greedy, 100, 1);
    assert_eq!(
        p.withdraw(&greedy, 5, &String::from(POOL)).err(),
        Some(PoolError::StorageDepositExceedsWithdrawal)
    );

    // Leave a residual of 70 on a claim of 70.
    let msg = wnear_unstake("carol.near", None, Some("m"));
    let h = queue(&mut p, &msg, 100, 1);
    let w = match p.withdraw(&msg, 5, &String::from(POOL)).unwrap() {
        WithdrawPlan::Wnear(w) => w,
        other => panic!("unexpected plan {other:?}"),
    };
    p.on_withdraw_wnear(true, 30, h, w.amount_to_send, w.amount_to_near_deposit, w.storage_to_pay, w.is_call)
        .unwrap();
    p.remove_lock(h);

    let with_storage = wnear_unstake("carol.near", Some(10), Some("m"));
    let hs = with_storage.hash().unwrap();
    assert_eq!(p.on_unstake(true, 1, 1, hs, UnstakeTrigger::UserRequest, 1), Ok(0));
    let tr = p.withdrawal_requests.requests.iter_mut().find(|(k, _)| *k == hs).unwrap();
    tr.1[0].value.wnear_residual = 1;
    tr.1[0].value.withdrawal_amount = 5;
    assert_eq!(
        p.withdraw(&with_storage, 5, &String::from(POOL)).err(),
        Some(PoolError::StorageDepositExceedsWithdrawal)
    );
    let tr = p.withdrawal_requests.requests.iter_mut().find(|(k, _)| *k == hs).unwrap();
    tr.1[0].value.withdrawal_amount = 10;
    assert_eq!(
        p.withdraw(&with_storage, 5, &String::from(POOL)).err(),
        Some(PoolError::ResidualExceedsDeliverable)
    );

    let self_msg = wnear_unstake(POOL, None, None);
    let hself = queue(&mut p, &self_msg, 70, 1);
    let tr = p.withdrawal_requests.requests.iter_mut().find(|(k, _)| *k == hself).unwrap();
    tr.1[0].value.wnear_residual = 70;
    assert_eq!(p.withdraw(&self_msg, 5, &String::from(POOL)).err(), Some(PoolError::NothingToDeliver));
}

#[test]
fn wnear_settlement_refusals() {
    let mut p = pool(1000, 0);
    let missing = native_unstake("nobody.near").hash().unwrap();
    assert_eq!(p.on_withdraw_wnear(true, 0, missing, 10, 10, 0, false), Err(PoolError::NoDistribution));
    let msg = wnear_unstake("bob.near", None, None);
    let h = queue(&mut p, &msg, 100, 1);
    assert_eq!(p.on_withdraw_wnear(true, 0, h, 10, 10, 0, false), Err(PoolError::DistributionNotLocked));
    p.withdraw(&msg, 5, &String::from(POOL)).unwrap();
    assert_eq!(p.on_withdraw_wnear(true, 0, h, 200, 200, 0, false), Err(PoolError::DeliveredExceedsClaim));
    assert_eq!(p.on_withdraw_wnear(false, 0, h, 100, 100, 0, false), Ok(()));
    assert_eq!(p.get_total_pending_withdrawals(), 100);
    p.statistics.total_pending_withdrawals = 5;
    assert_eq!(p.on_withdraw_wnear(true, 0, h, 10, 10, 0, false), Err(PoolError::PendingWithdrawalsUnderflow));
    p.statistics.total_pending_withdrawals = 100;
    p.statistics.latest_total_balance = 5;
    assert_eq!(p.on_withdraw_wnear(true, 0, h, 10, 10, 0, false), Err(PoolError::TotalBalanceUnderflow));
}

#[test]
fn missing_hash_has_nothing_to_withdraw() {
    let mut p = pool(1000, 0);
    assert_eq!(
        p.withdraw(&native_unstake("ghost.near"), 100, &String::from(POOL)).err(),
        Some(PoolError::NothingToWithdraw)
    );
}

#[test]
fn overflowing_sweep_is_refused() {
    let mut p = pool(1000, 0);
    let msg = native_unstake("bob.near");
    let h = queue(&mut p, &msg, u128::MAX, 1);
    let tr = p.withdrawal_requests.requests.iter_mut().find(|(k, _)| *k == h).unwrap();
    tr.1.push(liquid_staking_token::requests::Lock { value: Tranche::new(1, 2), locked: false });
    assert_eq!(p.withdraw(&msg, 10, &String::from(POOL)).err(), Some(PoolError::CollapseAmountOverflow));
    assert_eq!(PoolError::CollapseAmountOverflow.message(), "Overflow while collapsing withdrawal amount");
    // Recording another unstake would collapse the same tranches.
    assert_eq!(
        p.on_unstake(true, 1, 1, h, UnstakeTrigger::UserRequest, 10),
        Err(PoolError::CollapseAmountOverflow)
    );
}

#[test]
fn overflowing_residuals_are_refused() {
    let mut p = pool(1000, 0);
    let msg = native_unstake("bob.near");
    let h = queue(&mut p, &msg, 10, 1);
    let tr = p.withdrawal_requests.requests.iter_mut().find(|(k, _)| *k == h).unwrap();
    tr.1[0].value.wnear_residual = u128::MAX;
    tr.1.push(liquid_staking_token::requests::Lock {
        value: Tranche { withdrawal_amount: 5, unstake_epoch: 2, wnear_residual: 1, storage_was_paid: false },
        locked: false,
    });
    assert_eq!(p.withdraw(&msg, 10, &String::from(POOL)).err(), Some(PoolError::CollapseResidualOverflow));
    assert_eq!(
        p.on_unstake(true, 1, 1, h, UnstakeTrigger::UserRequest, 10),
        Err(PoolError::CollapseResidualOverflow)
    );
    assert_eq!(PoolError::CollapseResidualOverflow.message(), "Overflow while collapsing residuals");
}

#[test]
fn second_sweep_waits_for_the_first() {
    let mut p = pool(1000, 0);
    let msg = native_unstake("bob.near");
    let h = queue(&mut p, &msg, 10, 1);
    assert!(!p.withdrawal_requests.is_in_flight(&h));
    p.withdraw(&msg, 10, &String::from(POOL)).unwrap();
    assert!(p.withdrawal_requests.is_in_flight(&h));
    assert_eq!(p.withdraw(&msg, 10, &String::from(POOL)).err(), Some(PoolError::WithdrawalInProgress));
}

#[test]
fn delegator_count_follows_transfers() {
    let mut p = pool(1000, 0);
    assert_eq!(p.ft_transfer(false, true), Err(PoolError::DelegatorsUnderflow));
    assert_eq!(p.ft_transfer(true, false), Ok(()));
    assert_eq!(p.ft_transfer_call(true), Ok(()));
    assert_eq!(p.get_number_of_accounts(), 2);
    assert_eq!(p.ft_transfer(true, true), Ok(()));
    assert_eq!(p.get_number_of_accounts(), 2);
    p.statistics.num_delegators = u64::MAX;
    assert_eq!(p.ft_transfer(true, false), Err(PoolError::DelegatorsOverflow));
    assert_eq!(p.ft_transfer_call(true), Err(PoolError::DelegatorsOverflow));
}

#[test]
fn storage_moves_the_tracked_balance() {
    let mut p = pool(1000, 0);
    assert_eq!(p.storage_deposit(true, false, 125), Ok(()));
    assert_eq!(p.get_total_balance(), 1125);
    assert_eq!(p.storage_deposit(true, true, 125), Ok(()));
    assert_eq!(p.storage_deposit(false, false, 125), Ok(()));
    assert_eq!(p.get_total_balance(), 1125);
    assert_eq!(p.storage_withdraw(true), Ok(()));
    assert_eq!(p.get_total_balance(), 1126);
    assert_eq!(p.storage_unregister(true, true, 126), Ok(()));
    assert_eq!(p.get_total_balance(), 1000);
    assert_eq!(p.storage_unregister(true, true, 5000), Err(PoolError::TotalBalanceUnderflow));
    p.statistics.latest_total_balance = u128::MAX;
    assert_eq!(p.storage_withdraw(true), Err(PoolError::TotalBalanceAddOverflow));
}

#[test]
fn paginated_views_of_the_pool() {
    let mut p = pool(1000, 0);
    let a = queue(&mut p, &native_unstake("a.near"), 10, 1);
    let b = queue(&mut p, &native_unstake("b.near"), 20, 3);
    assert_eq!(p.get_hashes_available_for_withdrawal(0, 10, 5), vec![a]);
    assert_eq!(p.get_hashes_available_for_withdrawal(0, 10, 7).len(), 2);
    let page = p.get_withdrawal_requests(1, 10);
    assert_eq!(page.len(), 1);
    assert_eq!(page[0].hash, near_sdk::bs58::encode(b).into_string());
    assert_eq!(page[0].tranches, vec![Tranche::new(20, 3)]);
}
