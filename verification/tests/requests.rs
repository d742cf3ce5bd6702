use liquid_staking_token::messages::{UnstakeMessage, WithdrawTokens};
use liquid_staking_token::requests::{
    collapse_matured_tranches, CryptoHash, Lock, Tranche, WithdrawalRequests, MAX_LIMIT, UNSTAKE_COOLDOWN_PERIOD,
};

fn setup() -> WithdrawalRequests {
    WithdrawalRequests::new()
}

/// A fresh queue together with the epoch the view calls observe.
fn setup_at(epoch: u64) -> (WithdrawalRequests, u64) {
    (WithdrawalRequests::new(), epoch)
}

fn unstake_msg(seed: u8) -> UnstakeMessage {
    UnstakeMessage {
        receiver_id: format!("user{seed}.near"),
        withdraw_tokens: WithdrawTokens::Native,
    }
}

fn hash(seed: u8) -> CryptoHash {
    unstake_msg(seed).hash().expect("borsh-serialize UnstakeMessage")
}

fn near(yocto: u128) -> u128 {
    yocto
}

fn vec_at<'a>(wr: &'a WithdrawalRequests, h: &CryptoHash) -> Option<&'a Vec<Lock<Tranche>>> {
    wr.requests.iter().find(|(k, _)| k == h).map(|(_, v)| v)
}

#[test]
fn tranche_matures_exactly_at_cooldown_boundary() {
    let t = Tranche {
        unstake_epoch: 10,
        ..Default::default()
    };
    assert!(!t.is_matured(10 + UNSTAKE_COOLDOWN_PERIOD - 1));
    assert!(t.is_matured(10 + UNSTAKE_COOLDOWN_PERIOD));
    assert!(t.is_matured(10 + UNSTAKE_COOLDOWN_PERIOD + 1));
}

#[test]
fn append_request_creates_entry_on_first_call() {
    let mut wr = setup();
    let h = hash(1);

    wr.append_request(10, hash(1), near(100));

    let v = vec_at(&wr, &h).expect("entry should be created");
    assert_eq!(v.len(), 1);
    let t = v[0].as_inner_unchecked();
    assert_eq!(t.withdrawal_amount, near(100));
    assert_eq!(t.unstake_epoch, 10);
    assert!(!v[0].is_locked());
}

#[test]
fn append_request_folds_same_epoch_into_one_tranche() {
    let mut wr = setup();
    let h = hash(1);

    wr.append_request(10, hash(1), near(100));
    wr.append_request(10, hash(1), near(50));

    let v = vec_at(&wr, &h).expect("entry exists");
    assert_eq!(v.len(), 1, "same-epoch unstakes should fold");
    let t = v[0].as_inner_unchecked();
    assert_eq!(t.withdrawal_amount, near(150));
    assert_eq!(t.unstake_epoch, 10);
}

#[test]
fn append_request_different_epochs_within_cooldown_stay_independent() {
    let mut wr = setup();
    let h = hash(1);

    wr.append_request(10, hash(1), near(100));
    wr.append_request(11, hash(1), near(50));

    let v = vec_at(&wr, &h).expect("entry exists");
    assert_eq!(v.len(), 2, "different in-cooldown epochs stay separate");

    let mut amounts: Vec<u128> = v.iter().map(|l| l.as_inner_unchecked().withdrawal_amount).collect();
    amounts.sort_unstable();
    assert_eq!(amounts, vec![50, 100]);
}

#[test]
fn append_request_collapses_matured_prior_tranche() {
    let mut wr = setup();
    let h = hash(1);

    wr.append_request(10, hash(1), near(100));
    wr.append_request(14, hash(1), near(70));

    let v = vec_at(&wr, &h).expect("entry exists");
    assert_eq!(v.len(), 2, "one matured-collapsed + one current-epoch tranche");

    let mut tranches: Vec<&Tranche> = v.iter().map(Lock::as_inner_unchecked).collect();
    tranches.sort_by_key(|t| t.unstake_epoch);

    assert_eq!(tranches[0].unstake_epoch, 10);
    assert_eq!(tranches[0].withdrawal_amount, near(100));

    assert_eq!(tranches[1].unstake_epoch, 14);
    assert_eq!(tranches[1].withdrawal_amount, near(70));
}

#[test]
fn append_request_collapses_multiple_matured_into_one() {
    let mut wr = setup();
    let h = hash(1);

    wr.append_request(5, hash(1), near(100));
    wr.append_request(6, hash(1), near(50));
    wr.append_request(10, hash(1), near(30));

    let v = vec_at(&wr, &h).expect("entry exists");
    assert_eq!(v.len(), 2, "two matured collapsed + one new");

    let mut tranches: Vec<&Tranche> = v.iter().map(Lock::as_inner_unchecked).collect();
    tranches.sort_by_key(|t| t.unstake_epoch);

    assert_eq!(tranches[0].unstake_epoch, 6);
    assert_eq!(tranches[0].withdrawal_amount, near(150));

    assert_eq!(tranches[1].unstake_epoch, 10);
    assert_eq!(tranches[1].withdrawal_amount, near(30));
}

#[test]
fn append_request_skips_locked_tranche() {
    let mut wr = setup();
    let h = hash(1);

    wr.append_request(5, hash(1), near(100));
    let _ = wr.amount_of_matured_tranches(10, h);

    wr.append_request(10, hash(1), near(40));

    let v = vec_at(&wr, &h).expect("entry exists");

    let locked_count = v.iter().filter(|l| l.is_locked()).count();
    assert_eq!(locked_count, 1, "in-flight lock should be preserved");

    let locked_amount = v.iter().find(|l| l.is_locked()).unwrap().as_inner_unchecked().withdrawal_amount;
    assert_eq!(locked_amount, near(100), "locked tranche unchanged");

    let unlocked: Vec<&Tranche> = v.iter().filter(|l| !l.is_locked()).map(Lock::as_inner_unchecked).collect();
    assert_eq!(unlocked.len(), 1);
    assert_eq!(unlocked[0].withdrawal_amount, near(40));
    assert_eq!(unlocked[0].unstake_epoch, 10);
}

#[test]
fn amount_of_matured_tranches_returns_zero_for_missing_hash() {
    let mut wr = setup();
    assert_eq!(wr.amount_of_matured_tranches(100, hash(99)), 0);
}

#[test]
fn amount_of_matured_tranches_returns_zero_when_nothing_matured() {
    let mut wr = setup();
    let h = hash(1);

    wr.append_request(10, hash(1), near(100));
    assert_eq!(wr.amount_of_matured_tranches(11, h), 0);

    let v = vec_at(&wr, &h).unwrap();
    assert_eq!(v.len(), 1);
    assert!(!v[0].is_locked());
}

#[test]
fn amount_of_matured_tranches_collapses_and_locks_result() {
    let mut wr = setup();
    let h = hash(1);

    wr.append_request(5, hash(1), near(100));
    wr.append_request(6, hash(1), near(50));

    let amount = wr.amount_of_matured_tranches(10, h);
    assert_eq!(amount, near(150));

    let v = vec_at(&wr, &h).unwrap();
    let locked: Vec<&Lock<Tranche>> = v.iter().filter(|l| l.is_locked()).collect();
    assert_eq!(locked.len(), 1, "exactly one locked in-flight tranche");
    assert_eq!(locked[0].as_inner_unchecked().withdrawal_amount, near(150));
}

#[test]
fn amount_of_matured_tranches_preserves_non_matured() {
    let mut wr = setup();
    let h = hash(1);

    wr.append_request(5, hash(1), near(100));
    wr.append_request(8, hash(1), near(20));

    let amount = wr.amount_of_matured_tranches(10, h);
    assert_eq!(amount, near(100), "only T1 has matured");

    let v = vec_at(&wr, &h).unwrap();
    assert_eq!(v.len(), 2);
    assert_eq!(v.iter().filter(|l| l.is_locked()).count(), 1);

    let unlocked = v.iter().find(|l| !l.is_locked()).unwrap().as_inner_unchecked();
    assert_eq!(unlocked.unstake_epoch, 8);
    assert_eq!(unlocked.withdrawal_amount, near(20));
}

#[test]
fn amount_of_matured_tranches_residual_and_storage_aggregate() {
    let mut wr = setup();
    let h = hash(1);

    wr.append_request(5, hash(1), near(100));
    wr.append_request(6, hash(1), near(50));

    {
        let tranches = &mut wr.requests.iter_mut().find(|(k, _)| *k == h).unwrap().1;
        for lock in tranches.iter_mut() {
            lock.value.wnear_residual = near(7);
            lock.value.storage_was_paid = true;
        }
    }

    let _ = wr.amount_of_matured_tranches(10, h);

    let inflight = wr.locked_tranche(&h);
    assert_eq!(inflight.withdrawal_amount, near(150));
    assert_eq!(inflight.wnear_residual, near(14), "residuals are summed");
    assert!(inflight.storage_was_paid, "storage_was_paid is OR'd");
    assert_eq!(inflight.unstake_epoch, 6, "max of merged epochs");
}

#[test]
fn locked_tranche_returns_the_inflight_one() {
    let mut wr = setup();
    let h = hash(1);

    wr.append_request(5, hash(1), near(100));
    let _ = wr.amount_of_matured_tranches(10, h);

    let t = wr.locked_tranche(&h);
    assert_eq!(t.withdrawal_amount, near(100));
}

#[test]
fn locked_tranche_finds_inflight_among_unlocked_tranches() {
    let mut wr = setup();
    let h = hash(1);

    wr.append_request(5, hash(1), near(100));
    let _ = wr.amount_of_matured_tranches(10, h);
    wr.append_request(10, hash(1), near(33));

    let t = wr.locked_tranche(&h);
    assert_eq!(t.withdrawal_amount, near(100), "must return the locked tranche, not the new unlocked one");

    let t_mut = wr.locked_tranche_mut(&h);
    assert_eq!(t_mut.withdrawal_amount, near(100));
}

#[test]
fn remove_request_drops_only_locked_tranche() {
    let mut wr = setup();
    let h = hash(1);

    wr.append_request(5, hash(1), near(100));
    let _ = wr.amount_of_matured_tranches(10, h);
    wr.append_request(10, hash(1), near(40));

    wr.remove_request(&h);

    let v = vec_at(&wr, &h).expect("entry survives because non-locked tranche remains");
    assert_eq!(v.len(), 1);
    assert!(!v[0].is_locked());
    assert_eq!(v[0].as_inner_unchecked().withdrawal_amount, near(40));
}

#[test]
fn remove_request_removes_entry_when_vec_empties() {
    let mut wr = setup();
    let h = hash(1);

    wr.append_request(5, hash(1), near(100));
    let _ = wr.amount_of_matured_tranches(10, h);

    wr.remove_request(&h);

    assert!(vec_at(&wr, &h).is_none(), "fully drained entry should be removed");
}

#[test]
fn remove_request_no_op_when_nothing_locked() {
    let mut wr = setup();
    let h = hash(1);

    wr.append_request(10, hash(1), near(100));
    wr.remove_request(&h);

    let v = vec_at(&wr, &h).expect("entry untouched");
    assert_eq!(v.len(), 1);
    assert_eq!(v[0].as_inner_unchecked().withdrawal_amount, near(100));
}

#[test]
fn remove_request_no_op_for_missing_hash() {
    let mut wr = setup();
    wr.remove_request(&hash(99));
}

#[test]
fn release_lock_unlocks_the_inflight_tranche() {
    let mut wr = setup();
    let h = hash(1);

    wr.append_request(5, hash(1), near(100));
    let _ = wr.amount_of_matured_tranches(10, h);

    wr.release_lock(&h);

    let v = vec_at(&wr, &h).unwrap();
    assert_eq!(v.iter().filter(|l| l.is_locked()).count(), 0);
    assert_eq!(v[0].as_inner_unchecked().withdrawal_amount, near(100));
}

#[test]
fn release_lock_lets_a_subsequent_collapse_re_lock() {
    let mut wr = setup();
    let h = hash(1);

    wr.append_request(5, hash(1), near(100));
    let _ = wr.amount_of_matured_tranches(10, h);
    wr.release_lock(&h);

    let amount = wr.amount_of_matured_tranches(10, h);
    assert_eq!(amount, near(100));
}

#[test]
fn release_lock_no_op_when_nothing_locked() {
    let mut wr = setup();
    let h = hash(1);
    wr.append_request(10, hash(1), near(100));
    wr.release_lock(&h);
    let v = vec_at(&wr, &h).unwrap();
    assert!(!v[0].is_locked());
}

#[test]
fn release_lock_no_op_for_missing_hash() {
    let mut wr = setup();
    wr.release_lock(&hash(99));
}

#[test]
fn end_to_end_partial_refund_then_full_drain() {
    let mut wr = setup();
    let h = hash(1);

    wr.append_request(5, hash(1), near(100));
    assert_eq!(wr.amount_of_matured_tranches(10, h), near(100));

    {
        let inflight = wr.locked_tranche_mut(&h);
        inflight.withdrawal_amount = near(30);
        inflight.wnear_residual = near(70);
    }
    wr.release_lock(&h);

    assert_eq!(wr.amount_of_matured_tranches(10, h), near(30));
    let inflight = wr.locked_tranche(&h);
    assert_eq!(inflight.wnear_residual, near(70));

    wr.remove_request(&h);
    assert!(vec_at(&wr, &h).is_none());
}

#[test]
fn unstake_during_withdrawal_does_not_disturb_inflight_tranche() {
    let mut wr = setup();
    let h = hash(1);

    wr.append_request(5, hash(1), near(100));
    let inflight_amount = wr.amount_of_matured_tranches(10, h);
    assert_eq!(inflight_amount, near(100));

    wr.append_request(10, hash(1), near(50));

    let inflight = wr.locked_tranche(&h);
    assert_eq!(inflight.withdrawal_amount, near(100), "in-flight tranche must not absorb the new unstake");

    let v = vec_at(&wr, &h).unwrap();
    let unlocked: Vec<&Tranche> = v.iter().filter(|l| !l.is_locked()).map(Lock::as_inner_unchecked).collect();
    assert_eq!(unlocked.len(), 1);
    assert_eq!(unlocked[0].withdrawal_amount, near(50));
    assert_eq!(unlocked[0].unstake_epoch, 10);

    wr.remove_request(&h);
    let v = vec_at(&wr, &h).unwrap();
    assert_eq!(v.len(), 1);
    assert_eq!(v[0].as_inner_unchecked().withdrawal_amount, near(50));
}

#[test]
fn distinct_hashes_are_isolated() {
    let mut wr = setup();
    let h1 = hash(1);
    let h2 = hash(2);

    wr.append_request(5, hash(1), near(100));
    wr.append_request(5, hash(2), near(200));

    assert_eq!(wr.amount_of_matured_tranches(10, h1), near(100));
    assert_eq!(wr.amount_of_matured_tranches(10, h2), near(200));

    wr.remove_request(&h1);
    assert!(vec_at(&wr, &h1).is_none());
    assert!(vec_at(&wr, &h2).is_some());
}

#[test]
fn len_is_zero_on_a_fresh_queue() {
    let wr = setup();
    assert_eq!(wr.len(), 0);
}

#[test]
fn len_counts_distinct_hashes_not_tranches() {
    let mut wr = setup();

    wr.append_request(10, hash(1), near(100));
    wr.append_request(11, hash(1), near(50));
    assert_eq!(wr.len(), 1);

    wr.append_request(10, hash(2), near(200));
    assert_eq!(wr.len(), 2);
}

#[test]
fn len_decrements_when_an_entry_is_fully_drained() {
    let mut wr = setup();
    let h = hash(1);

    wr.append_request(5, hash(1), near(100));
    let _ = wr.amount_of_matured_tranches(10, h);
    assert_eq!(wr.len(), 1);

    wr.remove_request(&h);
    assert_eq!(wr.len(), 0);
}

#[test]
fn len_unchanged_when_remove_request_only_drops_locked_tranche() {
    let mut wr = setup();
    let h = hash(1);

    wr.append_request(5, hash(1), near(100));
    let _ = wr.amount_of_matured_tranches(10, h);
    wr.append_request(10, hash(1), near(40));

    wr.remove_request(&h);
    assert_eq!(wr.len(), 1);
}

#[test]
fn release_lock_returns_true_when_it_unlocks() {
    let mut wr = setup();
    let h = hash(1);

    wr.append_request(5, hash(1), near(100));
    let _ = wr.amount_of_matured_tranches(10, h);

    assert!(wr.release_lock(&h));

    let v = vec_at(&wr, &h).unwrap();
    assert!(!v.iter().any(Lock::is_locked));
}

#[test]
fn release_lock_returns_false_when_entry_has_no_lock() {
    let mut wr = setup();
    let h = hash(1);

    wr.append_request(10, hash(1), near(100));
    assert!(!wr.release_lock(&h));
}

#[test]
fn release_lock_returns_false_for_missing_hash() {
    let mut wr = setup();
    assert!(!wr.release_lock(&hash(99)));
}

#[test]
fn release_lock_is_idempotent() {
    let mut wr = setup();
    let h = hash(1);

    wr.append_request(5, hash(1), near(100));
    let _ = wr.amount_of_matured_tranches(10, h);

    assert!(wr.release_lock(&h));
    assert!(!wr.release_lock(&h));
}

#[test]
fn get_withdrawal_request_tranches_returns_none_for_missing_hash() {
    let wr = setup();
    assert!(wr.get_withdrawal_request_tranches(&hash(99)).is_none());
}

#[test]
fn get_withdrawal_request_tranches_returns_all_tranches() {
    let mut wr = setup();
    let h = hash(1);

    wr.append_request(10, hash(1), near(100));
    wr.append_request(11, hash(1), near(50));

    let tranches = wr.get_withdrawal_request_tranches(&h).unwrap();
    assert_eq!(tranches.len(), 2);

    let mut amounts: Vec<u128> = tranches.iter().map(|t| t.withdrawal_amount).collect();
    amounts.sort_unstable();
    assert_eq!(amounts, vec![50, 100]);
}

#[test]
fn get_withdrawal_request_tranches_includes_locked_tranche() {
    let mut wr = setup();
    let h = hash(1);

    wr.append_request(5, hash(1), near(100));
    let _ = wr.amount_of_matured_tranches(10, h);
    wr.append_request(10, hash(1), near(40));

    let tranches = wr.get_withdrawal_request_tranches(&h).unwrap();
    assert_eq!(tranches.len(), 2);

    let mut amounts: Vec<u128> = tranches.iter().map(|t| t.withdrawal_amount).collect();
    amounts.sort_unstable();
    assert_eq!(amounts, vec![40, 100]);
}

#[test]
fn get_withdrawal_request_tranches_returns_none_after_full_drain() {
    let mut wr = setup();
    let h = hash(1);

    wr.append_request(5, hash(1), near(100));
    let _ = wr.amount_of_matured_tranches(10, h);
    wr.remove_request(&h);

    assert!(wr.get_withdrawal_request_tranches(&h).is_none());
}

#[test]
fn get_withdrawal_requests_empty_queue_returns_empty_vec() {
    let wr = setup();
    let page = wr.get_withdrawal_requests(0, 10);
    assert!(page.is_empty());
}

#[test]
fn get_withdrawal_requests_returns_every_entry() {
    let mut wr = setup();
    wr.append_request(10, hash(1), near(100));
    wr.append_request(10, hash(2), near(200));
    wr.append_request(10, hash(3), near(300));

    let page = wr.get_withdrawal_requests(0, 100);
    assert_eq!(page.len(), 3);

    let mut totals: Vec<u128> = page
        .iter()
        .map(|r| r.tranches.iter().map(|t| t.withdrawal_amount).sum())
        .collect();
    totals.sort_unstable();
    assert_eq!(totals, vec![100, 200, 300]);
}

#[test]
fn get_withdrawal_requests_skip_and_limit_apply() {
    let mut wr = setup();
    for i in 1..=5u8 {
        wr.append_request(10, hash(i), near(u128::from(i) * 10));
    }

    let head = wr.get_withdrawal_requests(0, 2);
    assert_eq!(head.len(), 2);

    let tail = wr.get_withdrawal_requests(3, 100);
    assert_eq!(tail.len(), 2, "skipping 3 of 5 leaves 2");

    let middle = wr.get_withdrawal_requests(1, 2);
    assert_eq!(middle.len(), 2);

    let past = wr.get_withdrawal_requests(10, 5);
    assert!(past.is_empty());
}

#[test]
fn get_withdrawal_requests_clamps_limit_to_max_limit() {
    let mut wr = setup();
    for i in 0..(MAX_LIMIT + 5) {
        wr.append_request(10, hash(i as u8), near(1));
    }
    assert_eq!(wr.len() as usize, MAX_LIMIT + 5);

    let page = wr.get_withdrawal_requests(0, MAX_LIMIT + 100);
    assert_eq!(page.len(), MAX_LIMIT);

    let rest = wr.get_withdrawal_requests(MAX_LIMIT, MAX_LIMIT);
    assert_eq!(rest.len(), 5);
}

#[test]
fn get_withdrawal_requests_encodes_hash_as_base58() {
    let mut wr = setup();
    let h = hash(1);
    wr.append_request(10, hash(1), near(100));

    let page = wr.get_withdrawal_requests(0, 1);
    assert_eq!(page.len(), 1);

    let expected = near_sdk::bs58::encode(h).into_string();
    assert_eq!(page[0].hash, expected);
}

#[test]
fn get_withdrawal_requests_includes_all_tranches_per_entry() {
    let mut wr = setup();

    wr.append_request(10, hash(1), near(100));
    wr.append_request(11, hash(1), near(50));

    let page = wr.get_withdrawal_requests(0, 1);
    assert_eq!(page[0].tranches.len(), 2);

    let mut amounts: Vec<u128> = page[0].tranches.iter().map(|t| t.withdrawal_amount).collect();
    amounts.sort_unstable();
    assert_eq!(amounts, vec![50, 100]);
}

#[test]
fn get_hashes_available_for_withdrawal_returns_empty_when_queue_empty() {
    let (wr, epoch) = setup_at(10);
    assert!(wr.get_hashes_available_for_withdrawal(0, 100, epoch).is_empty());
}

#[test]
fn get_hashes_available_for_withdrawal_returns_hashes_with_matured_tranches() {
    let (mut wr, epoch) = setup_at(10);

    wr.append_request(5, hash(1), near(100));
    wr.append_request(5, hash(2), near(200));

    let mut got = wr.get_hashes_available_for_withdrawal(0, 100, epoch);
    got.sort_unstable();
    let mut want = vec![hash(1), hash(2)];
    want.sort_unstable();
    assert_eq!(got, want);
}

#[test]
fn get_hashes_available_for_withdrawal_excludes_hashes_with_only_non_matured_tranches() {
    let (mut wr, epoch) = setup_at(10);

    wr.append_request(8, hash(1), near(100));

    assert!(wr.get_hashes_available_for_withdrawal(0, 100, epoch).is_empty());
}

#[test]
fn get_hashes_available_for_withdrawal_excludes_hash_with_only_locked_tranche() {
    let (mut wr, epoch) = setup_at(10);
    let h = hash(1);

    wr.append_request(5, hash(1), near(100));
    let _ = wr.amount_of_matured_tranches(10, h);

    assert!(wr.get_hashes_available_for_withdrawal(0, 100, epoch).is_empty());
}

#[test]
fn get_hashes_available_for_withdrawal_includes_hash_with_locked_plus_unlocked_matured() {
    let (mut wr, epoch) = setup_at(10);
    let h = hash(1);

    wr.append_request(5, hash(1), near(100));
    let _ = wr.amount_of_matured_tranches(10, h);

    wr.append_request(6, hash(1), near(40));

    assert_eq!(wr.get_hashes_available_for_withdrawal(0, 100, epoch), vec![h]);
}

#[test]
fn get_hashes_available_for_withdrawal_skip_and_limit_apply_to_filtered_stream() {
    let (mut wr, epoch) = setup_at(10);

    wr.append_request(5, hash(1), near(10));
    wr.append_request(8, hash(2), near(20));
    wr.append_request(5, hash(3), near(30));
    wr.append_request(5, hash(4), near(40));

    let got = wr.get_hashes_available_for_withdrawal(1, 10, epoch);
    assert_eq!(got.len(), 2, "skip applies to the post-filter stream");
    assert!(!got.contains(&hash(2)));

    let got = wr.get_hashes_available_for_withdrawal(0, 2, epoch);
    assert_eq!(got.len(), 2);

    let got = wr.get_hashes_available_for_withdrawal(10, 100, epoch);
    assert!(got.is_empty());
}

#[test]
fn get_hashes_available_for_withdrawal_clamps_limit_to_max_limit() {
    let (mut wr, epoch) = setup_at(10);

    for i in 0..(MAX_LIMIT + 5) {
        let seed = i as u8;
        wr.append_request(5, hash(seed), near(1));
    }
    assert_eq!(wr.len() as usize, MAX_LIMIT + 5);

    let page = wr.get_hashes_available_for_withdrawal(0, MAX_LIMIT + 100, epoch);
    assert_eq!(page.len(), MAX_LIMIT);

    let rest = wr.get_hashes_available_for_withdrawal(MAX_LIMIT, MAX_LIMIT, epoch);
    assert_eq!(rest.len(), 5);
}

#[test]
fn get_hashes_available_for_withdrawal_observes_current_epoch() {
    let (mut early, early_epoch) = setup_at(7);
    early.append_request(5, hash(1), near(100));
    assert!(early.get_hashes_available_for_withdrawal(0, 100, early_epoch).is_empty());

    let (mut late, late_epoch) = setup_at(15);
    late.append_request(5, hash(1), near(100));
    assert_eq!(late.get_hashes_available_for_withdrawal(0, 100, late_epoch), vec![hash(1)]);
}

#[test]
fn get_hashes_available_for_withdrawal_drops_hash_after_full_drain() {
    let (mut wr, epoch) = setup_at(10);
    let h = hash(1);

    wr.append_request(5, hash(1), near(100));
    let _ = wr.amount_of_matured_tranches(10, h);
    wr.remove_request(&h);

    assert!(wr.get_hashes_available_for_withdrawal(0, 100, epoch).is_empty());
}

#[test]
fn queue_hash_is_keccak_of_borsh_encoding() {
    let msg = unstake_msg(1);
    let bytes = msg.borsh_bytes().unwrap();
    let expected = near_sdk::borsh::to_vec(&(String::from("user1.near"), 0u8)).unwrap();
    assert_eq!(bytes, expected);
    assert_eq!(msg.hash().unwrap(), near_sdk::env::keccak256_array(&expected));
    assert_ne!(hash(1), hash(2));
}

#[test]
fn wnear_unstake_message_encoding_matches_borsh() {
    let msg = UnstakeMessage {
        receiver_id: String::from("bob.near"),
        withdraw_tokens: WithdrawTokens::Wnear {
            storage_deposit: Some(1250),
            msg: Some(String::from("hi")),
            memo: None,
            min_gas: Some(30),
        },
    };
    let expected = near_sdk::borsh::to_vec(&(
        String::from("bob.near"),
        1u8,
        Some(1250u128),
        Some(String::from("hi")),
        Option::<String>::None,
        Some(30u64),
    ))
    .unwrap();
    assert_eq!(msg.borsh_bytes().unwrap(), expected);
}

#[test]
fn tranches_per_hash_stay_within_cooldown_plus_two() {
    let mut wr = setup();
    let h = hash(7);
    for epoch in 1..=40u64 {
        wr.append_request(epoch, hash(7), near(u128::from(epoch)));
        if epoch == 20 {
            let _ = wr.amount_of_matured_tranches(epoch, h);
        }
        let v = vec_at(&wr, &h).unwrap();
        assert!(v.len() as u64 <= UNSTAKE_COOLDOWN_PERIOD + 2, "epoch {epoch}: {} tranches", v.len());
    }
    let total: u128 = vec_at(&wr, &h).unwrap().iter().map(|l| l.value.withdrawal_amount).sum();
    assert_eq!(total, (1..=40u128).sum::<u128>());
}

#[test]
fn cooling_tranches_keep_their_epochs() {
    let mut wr = setup();
    let h = hash(3);
    wr.append_request(10, hash(3), near(1));
    wr.append_request(11, hash(3), near(2));
    wr.append_request(12, hash(3), near(3));
    wr.append_request(14, hash(3), near(4));
    let mut epochs: Vec<u64> = vec_at(&wr, &h).unwrap().iter().map(|l| l.value.unstake_epoch).collect();
    epochs.sort_unstable();
    // epoch 10 matured at 14 and was collapsed alone; 11 and 12 still cool down.
    assert_eq!(epochs, vec![10, 11, 12, 14]);
}

#[test]
fn collapse_takes_unlocked_matured_tranches_only() {
    let t = |amount: u128, epoch: u64, residual: u128, paid: bool| Tranche {
        withdrawal_amount: amount,
        unstake_epoch: epoch,
        wnear_residual: residual,
        storage_was_paid: paid,
    };
    let mut v = vec![
        Lock::unlocked(t(100, 3, 5, false)),
        Lock::locked(t(40, 2, 0, false)),
        Lock::unlocked(t(7, 9, 0, false)),
        Lock::unlocked(t(50, 6, 2, true)),
    ];
    let merged = collapse_matured_tranches(&mut v, 10);
    assert_eq!(merged, Some(t(150, 6, 7, true)));
    assert_eq!(v, vec![Lock::locked(t(40, 2, 0, false)), Lock::unlocked(t(7, 9, 0, false))]);

    let mut cooling = vec![Lock::unlocked(t(1, 9, 0, false))];
    assert_eq!(collapse_matured_tranches(&mut cooling, 10), None);
    assert_eq!(cooling.len(), 1);
}
