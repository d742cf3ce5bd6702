//! Properties of the pool that span several operations.

use vstd::prelude::*;
use crate::math::mul_div_spec;
use crate::pool::{SyncOutcome, fee_spec, lst_to_near_spec, near_to_lst_spec, sync_spec};
use crate::requests::{
    EntryView, Lock, Tranche, locked_total, queue_total, unlocked_only, after_collapse, after_sweep, appended, first_locked, first_unlocked_at, is_matured_spec,
    kept, locked_count, merged, sweepable, swept_amount, swept_epoch, swept_residual, total_amount,
};
use crate::withdrawal::{consumed_spec, saturating_add_spec};
use crate::requests::{CryptoHash, WithdrawalRequests};
use crate::stats::PoolStatistics;
use crate::messages::WithdrawTokens;
use crate::staking::stake_plan_spec;
use crate::unstaking::{UnstakePlan, unstake_plan_ok};
use crate::pool::LiquidStakingToken;
use crate::withdrawal::{WithdrawPlan, withdraw_error, withdraw_plan_spec};

verus! {

/// Staking `x` NEAR and unstaking the LST it minted right away returns at
/// most `x` NEAR: the round trip creates no value. (It can when LST supply is
/// zero while NEAR still backs it, so that state is left out.)
pub proof fn law_stake_then_unstake_never_gains(x: u128, supply: u128, staked: u128)
    requires
        supply == 0 ==> staked == 0,
        near_to_lst_spec(x, supply, staked) <= u128::MAX,
        supply + near_to_lst_spec(x, supply, staked) <= u128::MAX,
        staked + x <= u128::MAX,
    ensures
        ({
            let lst = near_to_lst_spec(x, supply, staked) as u128;
            lst_to_near_spec(lst, (supply + lst) as u128, (staked + x) as u128) <= x
        }),
{
    let lst = near_to_lst_spec(x, supply, staked) as u128;
    let s2 = supply + lst;
    let t2 = staked + x;
    if s2 == 0 {
        return;
    }
    if supply == 0 || staked == 0 {
        // 1:1 mint: lst == x, and the backing after is at most the supply after.
        assert(lst == x);
        assert(t2 <= s2);
        assert((lst * t2) / s2 <= x) by (nonlinear_arith)
            requires
                lst == x,
                t2 <= s2,
                s2 > 0,
                0 <= t2,
                0 <= x,
        ;
    } else {
        assert(lst * staked <= x * supply) by (nonlinear_arith)
            requires
                lst == (x * supply) / (staked as int),
                staked > 0,
                x >= 0,
                supply >= 0,
        ;
        assert((lst * t2) / s2 <= x) by (nonlinear_arith)
            requires
                lst * staked <= x * supply,
                t2 == staked + x,
                s2 == supply + lst,
                s2 > 0,
                lst >= 0,
                x >= 0,
        ;
    }
}

/// A rewards sync never lowers the NEAR value of one LST: the backing per
/// LST after the sync (fee minted) is at least the backing per LST before.
pub proof fn law_sync_never_lowers_rate(
    st: PoolStatistics,
    epoch: u64,
    locked: u128,
    balance: u128,
    exclude: u128,
    supply: u128,
)
    requires
        supply > 0,
        st.protocol_fee_bps <= 10_000,
        sync_spec(st, epoch, locked, balance, exclude, supply) is Ok,
    ensures
        ({
            let (st2, out) = sync_spec(st, epoch, locked, balance, exclude, supply)->Ok_0;
            st2.total_staked_amount * supply >= st.total_staked_amount * (supply + out.fee_lst)
        }),
{
    let (st2, out) = sync_spec(st, epoch, locked, balance, exclude, supply)->Ok_0;
    if out.total_reward == 0 {
        return;
    }
    let current = locked + balance - exclude;
    let reward = current - st.latest_total_balance;
    let fee = fee_spec(reward as u128, st.protocol_fee_bps);
    assert(0 <= fee <= reward) by (nonlinear_arith)
        requires
            fee == (reward * (st.protocol_fee_bps as u128)) / 10000,
            reward >= 0,
            st.protocol_fee_bps <= 10000,
    ;
    let staked = st.total_staked_amount;
    let staked1 = staked + (reward - fee);
    let fee_lst = out.fee_lst;
    if staked1 == 0 {
        assert(staked == 0);
        assert(st2.total_staked_amount * supply >= staked * (supply + fee_lst)) by (nonlinear_arith)
            requires
                staked == 0,
                st2.total_staked_amount >= 0,
                supply > 0,
        ;
        return;
    }
    assert(fee_lst * staked1 <= fee * supply) by (nonlinear_arith)
        requires
            fee_lst == (fee * supply) / staked1,
            staked1 > 0,
            fee >= 0,
            supply > 0,
    ;
    assert((staked1 + fee) * supply >= staked * (supply + fee_lst)) by (nonlinear_arith)
        requires
            fee_lst * staked1 <= fee * supply,
            staked <= staked1,
            staked >= 0,
            fee >= 0,
            fee_lst >= 0,
            supply > 0,
    ;
}

/// Once rewards have lifted the backing above the supply, staking mints
/// fewer LST than the NEAR staked, and unstaking returns at least as much
/// NEAR as the LST burned.
pub proof fn law_rate_above_one(x: u128, supply: u128, staked: u128)
    requires
        0 < supply < staked,
        x > 0,
    ensures
        near_to_lst_spec(x, supply, staked) < x,
        lst_to_near_spec(x, supply, staked) >= x,
{
    assert((x * supply) / (staked as int) < x) by (nonlinear_arith)
        requires
            0 < supply < staked,
            x > 0,
    ;
    assert((x * staked) / (supply as int) >= x) by (nonlinear_arith)
        requires
            0 < supply < staked,
            x > 0,
    ;
}

/// While the LST supply equals the NEAR backing it (as right after
/// [`crate::pool::LiquidStakingToken::new`], whose genesis mint is the staked
/// balance, and until a sync folds in rewards), the rate is one: staking `x`
/// NEAR mints `x` LST and unstaking `x` LST returns `x` NEAR.
pub proof fn law_rate_one_while_supply_equals_stake(x: u128, supply: u128)
    ensures
        near_to_lst_spec(x, supply, supply) == x,
        supply > 0 ==> lst_to_near_spec(x, supply, supply) == x,
{
    if supply > 0 {
        assert((x * supply) / (supply as int) == x) by (nonlinear_arith)
            requires
                supply > 0,
        ;
    }
}

/// A second sync in the same epoch, at the same balances, changes nothing.
pub proof fn law_sync_once_per_epoch(
    st: PoolStatistics,
    epoch: u64,
    locked: u128,
    balance: u128,
    exclude: u128,
    supply: u128,
    later_supply: u128,
)
    requires
        sync_spec(st, epoch, locked, balance, exclude, supply) is Ok,
    ensures
        ({
            let st2 = sync_spec(st, epoch, locked, balance, exclude, supply)->Ok_0.0;
            sync_spec(st2, epoch, locked, balance, exclude, later_supply)
                == Ok::<(PoolStatistics, SyncOutcome), crate::pool::PoolError>((st2, SyncOutcome { total_reward: 0, fee_lst: 0 }))
        }),
{
}

proof fn lemma_total_push(s: Seq<Lock<Tranche>>, x: Lock<Tranche>)
    ensures
        total_amount(s.push(x)) == total_amount(s) + x.value.withdrawal_amount,
{
    assert(s.push(x).drop_last() =~= s);
}

proof fn lemma_total_update(s: Seq<Lock<Tranche>>, k: int, x: Lock<Tranche>)
    requires
        0 <= k < s.len(),
    ensures
        total_amount(s.update(k, x)) == total_amount(s) - s[k].value.withdrawal_amount + x.value.withdrawal_amount,
    decreases s.len(),
{
    if k == s.len() - 1 {
        assert(s.update(k, x).drop_last() =~= s.drop_last());
    } else {
        lemma_total_update(s.drop_last(), k, x);
        assert(s.update(k, x).drop_last() =~= s.drop_last().update(k, x));
    }
}

proof fn lemma_total_kept(s: Seq<Lock<Tranche>>, e: u64)
    ensures
        total_amount(kept(s, e)) + swept_amount(s, e) == total_amount(s),
    decreases s.len(),
{
    if s.len() > 0 {
        lemma_total_kept(s.drop_last(), e);
        if !sweepable(s.last(), e) {
            lemma_total_push(kept(s.drop_last(), e), s.last());
        }
    }
}

/// A withdrawal sweep loses nothing: the tranches under a hash add up to the
/// same amount before and after the matured ones are merged and locked.
pub proof fn law_sweep_conserves(s: Seq<Lock<Tranche>>, e: u64)
    requires
        swept_amount(s, e) <= u128::MAX,
    ensures
        total_amount(after_sweep(s, e)) == total_amount(s),
{
    lemma_total_kept(s, e);
    crate::requests::lemma_swept_nonneg(s, e);
    lemma_total_push(kept(s, e), Lock { value: merged(s, e), locked: true });
}

/// Merging keeps the wNEAR residual within the claim: when every tranche a
/// sweep takes holds no more wNEAR than it claims, neither does the merged
/// tranche.
pub proof fn law_sweep_keeps_residual_within_claim(s: Seq<Lock<Tranche>>, e: u64)
    requires
        forall|i: int| 0 <= i < s.len() && sweepable(s[i], e)
            ==> (#[trigger] s[i].value).wnear_residual <= s[i].value.withdrawal_amount,
    ensures
        swept_residual(s, e) <= swept_amount(s, e),
    decreases s.len(),
{
    if s.len() > 0 {
        let d = s.drop_last();
        assert forall|i: int| 0 <= i < d.len() && sweepable(d[i], e)
            implies (#[trigger] d[i].value).wnear_residual <= d[i].value.withdrawal_amount by {
            assert(d[i] == s[i]);
        }
        law_sweep_keeps_residual_within_claim(d, e);
        assert(s[s.len() - 1] == s.last());
    }
}

/// Settling a wNEAR delivery that was planned for an in-flight claim (so
/// that the wNEAR sent plus the storage paid is the whole claim) never
/// delivers more than the claim, and the refunded residual equals the claim
/// that remains: the residual stays within the claim.
pub proof fn law_settlement_residual_is_remaining_claim(
    t: Tranche,
    amount_to_send: u128,
    storage_to_pay: u128,
    reported_used: u128,
    is_call: bool,
)
    requires
        amount_to_send + storage_to_pay == t.withdrawal_amount,
    ensures
        ({
            let consumed = consumed_spec(is_call, reported_used, amount_to_send);
            let delivered = saturating_add_spec(consumed, storage_to_pay);
            &&& delivered <= t.withdrawal_amount
            &&& t.withdrawal_amount - delivered == amount_to_send - consumed
        }),
{
}

proof fn lemma_kept_has(s: Seq<Lock<Tranche>>, e: u64, i: int)
    requires
        0 <= i < s.len(),
        !sweepable(s[i], e),
    ensures
        kept(s, e).contains(s[i]),
    decreases s.len(),
{
    let d = s.drop_last();
    if i == s.len() - 1 {
        assert(kept(s, e) == kept(d, e).push(s.last()));
        assert(kept(s, e)[kept(d, e).len() as int] == s[i]);
    } else {
        assert(d[i] == s[i]);
        lemma_kept_has(d, e, i);
        let j = choose|j: int| 0 <= j < kept(d, e).len() && kept(d, e)[j] == s[i];
        if sweepable(s.last(), e) {
            assert(kept(s, e)[j] == s[i]);
        } else {
            assert(kept(s, e)[j] == kept(d, e).push(s.last())[j]);
        }
    }
}

/// Cooldown independence: recording an unstake at epoch `e` never shifts a
/// tranche that is still cooling down (or in flight): every such tranche,
/// unless it is the unlocked one of epoch `e` that absorbs the new amount,
/// is still there unchanged afterwards.
pub proof fn law_append_keeps_cooling_tranches(s: Seq<Lock<Tranche>>, e: u64, amount: u128, i: int)
    requires
        0 <= i < s.len(),
        !sweepable(s[i], e),
        s[i].locked || s[i].value.unstake_epoch != e,
    ensures
        appended(s, e, amount).contains(s[i]),
{
    lemma_kept_has(s, e, i);
    let kk = kept(s, e);
    let j = choose|j: int| 0 <= j < kk.len() && kk[j] == s[i];
    let w = after_collapse(s, e);
    assert(w[j] == s[i]);
    crate::requests::lemma_first_unlocked_at_bounds(w, e);
    let k = first_unlocked_at(w, e);
    let fresh = Lock { value: Tranche { withdrawal_amount: amount, unstake_epoch: e, wnear_residual: 0, storage_was_paid: false }, locked: false };
    if k >= 0 {
        assert(k != j);
        assert(appended(s, e, amount)[j] == s[i]);
    } else {
        assert(appended(s, e, amount) == w.push(fresh));
        assert(appended(s, e, amount)[j] == s[i]);
    }
}

/// An unlocked tranche that is still cooling down at `e`.
pub open spec fn cooling(l: Lock<Tranche>, e: u64) -> bool {
    !l.locked && !is_matured_spec(l.value, e)
}

/// The epochs of the tranches of `s` that are cooling down at `e`.
pub open spec fn cooling_epochs(s: Seq<Lock<Tranche>>, e: u64) -> Set<int>
    decreases s.len(),
{
    if s.len() == 0 {
        Set::empty()
    } else if cooling(s.last(), e) {
        cooling_epochs(s.drop_last(), e).insert(s.last().value.unstake_epoch as int)
    } else {
        cooling_epochs(s.drop_last(), e)
    }
}

/// No two tranches of `s` cooling down at `e` share an epoch.
pub open spec fn cooling_distinct(s: Seq<Lock<Tranche>>, e: u64) -> bool
    decreases s.len(),
{
    s.len() == 0 || {
        &&& cooling_distinct(s.drop_last(), e)
        &&& cooling(s.last(), e) ==> !cooling_epochs(s.drop_last(), e).contains(s.last().value.unstake_epoch as int)
    }
}

/// No tranche of `s` is dated after epoch `e`.
pub open spec fn dated_by(s: Seq<Lock<Tranche>>, e: u64) -> bool {
    forall|i: int| 0 <= i < s.len() ==> (#[trigger] s[i]).value.unstake_epoch <= e
}

/// Number of tranches of `s` cooling down at `e`.
pub open spec fn cooling_count(s: Seq<Lock<Tranche>>, e: u64) -> nat
    decreases s.len(),
{
    if s.len() == 0 {
        0
    } else if cooling(s.last(), e) {
        cooling_count(s.drop_last(), e) + 1
    } else {
        cooling_count(s.drop_last(), e)
    }
}

/// Number of tranches of `s` that a sweep at `e` would take.
pub open spec fn sweepable_count(s: Seq<Lock<Tranche>>, e: u64) -> nat
    decreases s.len(),
{
    if s.len() == 0 {
        0
    } else if sweepable(s.last(), e) {
        sweepable_count(s.drop_last(), e) + 1
    } else {
        sweepable_count(s.drop_last(), e)
    }
}

proof fn lemma_shape_push(t: Seq<Lock<Tranche>>, x: Lock<Tranche>, e: u64)
    ensures
        cooling_epochs(t.push(x), e) == (if cooling(x, e) {
            cooling_epochs(t, e).insert(x.value.unstake_epoch as int)
        } else {
            cooling_epochs(t, e)
        }),
        cooling_distinct(t.push(x), e) == (cooling_distinct(t, e)
            && (cooling(x, e) ==> !cooling_epochs(t, e).contains(x.value.unstake_epoch as int))),
        cooling_count(t.push(x), e) == cooling_count(t, e) + (if cooling(x, e) { 1nat } else { 0nat }),
        sweepable_count(t.push(x), e) == sweepable_count(t, e) + (if sweepable(x, e) { 1nat } else { 0nat }),
        locked_count(t.push(x)) == locked_count(t) + (if x.locked { 1nat } else { 0nat }),
        dated_by(t, e) && x.value.unstake_epoch <= e ==> dated_by(t.push(x), e),
{
    assert(t.push(x).drop_last() =~= t);
    assert(t.push(x).last() == x);
    if dated_by(t, e) && x.value.unstake_epoch <= e {
        assert forall|i: int| 0 <= i < t.push(x).len() implies (#[trigger] t.push(x)[i]).value.unstake_epoch <= e by {
            if i < t.len() {
                assert(t.push(x)[i] == t[i]);
            }
        }
    }
}

proof fn lemma_shape_kept(s: Seq<Lock<Tranche>>, e: u64)
    ensures
        cooling_epochs(kept(s, e), e) == cooling_epochs(s, e),
        cooling_distinct(s, e) ==> cooling_distinct(kept(s, e), e),
        cooling_count(kept(s, e), e) == cooling_count(s, e),
        sweepable_count(kept(s, e), e) == 0,
        locked_count(kept(s, e)) == locked_count(s),
        dated_by(s, e) ==> dated_by(kept(s, e), e),
    decreases s.len(),
{
    if s.len() > 0 {
        let d = s.drop_last();
        lemma_shape_kept(d, e);
        if dated_by(s, e) {
            assert forall|i: int| 0 <= i < d.len() implies (#[trigger] d[i]).value.unstake_epoch <= e by {
                assert(d[i] == s[i]);
            }
            assert(s[s.len() - 1] == s.last());
        }
        if !sweepable(s.last(), e) {
            lemma_shape_push(kept(d, e), s.last(), e);
        }
    }
}

proof fn lemma_shape_update(w: Seq<Lock<Tranche>>, k: int, y: Lock<Tranche>, e: u64)
    requires
        0 <= k < w.len(),
        cooling(w[k], e),
        cooling(y, e),
        y.value.unstake_epoch == w[k].value.unstake_epoch,
    ensures
        cooling_epochs(w.update(k, y), e) == cooling_epochs(w, e),
        cooling_distinct(w.update(k, y), e) == cooling_distinct(w, e),
        cooling_count(w.update(k, y), e) == cooling_count(w, e),
        sweepable_count(w.update(k, y), e) == sweepable_count(w, e),
        locked_count(w.update(k, y)) == locked_count(w),
        dated_by(w, e) ==> dated_by(w.update(k, y), e),
    decreases w.len(),
{
    let u = w.update(k, y);
    if k == w.len() - 1 {
        assert(u.drop_last() =~= w.drop_last());
    } else {
        lemma_shape_update(w.drop_last(), k, y, e);
        assert(u.drop_last() =~= w.drop_last().update(k, y));
    }
    assert(u.last() == (if k == w.len() - 1 { y } else { w.last() }));
    if dated_by(w, e) {
        assert forall|i: int| 0 <= i < u.len() implies (#[trigger] u[i]).value.unstake_epoch <= e by {
            assert(w[i].value.unstake_epoch <= e);
        }
    }
}

proof fn lemma_no_cooling_at(w: Seq<Lock<Tranche>>, e: u64)
    requires
        first_unlocked_at(w, e) < 0,
    ensures
        !cooling_epochs(w, e).contains(e as int),
    decreases w.len(),
{
    if w.len() > 0 {
        lemma_no_cooling_at(w.drop_last(), e);
    }
}

proof fn lemma_len_split(s: Seq<Lock<Tranche>>, e: u64)
    ensures
        s.len() == locked_count(s) + cooling_count(s, e) + sweepable_count(s, e),
    decreases s.len(),
{
    if s.len() > 0 {
        lemma_len_split(s.drop_last(), e);
    }
}

proof fn lemma_cooling_card(s: Seq<Lock<Tranche>>, e: u64)
    requires
        cooling_distinct(s, e),
    ensures
        cooling_epochs(s, e).finite(),
        cooling_epochs(s, e).len() == cooling_count(s, e),
    decreases s.len(),
{
    if s.len() > 0 {
        lemma_cooling_card(s.drop_last(), e);
        if cooling(s.last(), e) {
            vstd::set::axiom_set_insert_len(cooling_epochs(s.drop_last(), e), s.last().value.unstake_epoch as int);
        }
    }
}

proof fn lemma_cooling_window(s: Seq<Lock<Tranche>>, e: u64)
    requires
        dated_by(s, e),
    ensures
        cooling_epochs(s, e).subset_of(vstd::set_lib::set_int_range(e - 3, e + 1)),
    decreases s.len(),
{
    if s.len() > 0 {
        let d = s.drop_last();
        assert forall|i: int| 0 <= i < d.len() implies (#[trigger] d[i]).value.unstake_epoch <= e by {
            assert(d[i] == s[i]);
        }
        lemma_cooling_window(d, e);
        assert(s[s.len() - 1] == s.last());
    }
}

/// Number of unlocked tranches of `s` with unstake epoch `e`.
pub open spec fn unlocked_at_count(s: Seq<Lock<Tranche>>, e: u64) -> nat
    decreases s.len(),
{
    if s.len() == 0 {
        0
    } else if !s.last().locked && s.last().value.unstake_epoch == e {
        unlocked_at_count(s.drop_last(), e) + 1
    } else {
        unlocked_at_count(s.drop_last(), e)
    }
}

proof fn lemma_unlocked_at_count(s: Seq<Lock<Tranche>>, e: u64)
    requires
        cooling_distinct(s, e),
    ensures
        unlocked_at_count(s, e) == (if cooling_epochs(s, e).contains(e as int) { 1nat } else { 0nat }),
    decreases s.len(),
{
    if s.len() > 0 {
        lemma_unlocked_at_count(s.drop_last(), e);
    }
}

proof fn lemma_cooling_member(w: Seq<Lock<Tranche>>, k: int, e: u64)
    requires
        0 <= k < w.len(),
        cooling(w[k], e),
    ensures
        cooling_epochs(w, e).contains(w[k].value.unstake_epoch as int),
    decreases w.len(),
{
    if k < w.len() - 1 {
        assert(w.drop_last()[k] == w[k]);
        lemma_cooling_member(w.drop_last(), k, e);
    } else {
        assert(w[k] == w.last());
    }
}

/// The tranches under a hash stay few. Recording an unstake at epoch `e`
/// folds it into the tranche of the same epoch or adds one, and collapses
/// every matured tranche into one: afterwards exactly one unlocked tranche
/// has epoch `e`, at most one tranche is in flight, at most one unlocked
/// tranche has matured, and the tranches cooling down still have distinct
/// epochs. When no tranche is dated after `e` (as when unstakes come in
/// epoch order), those cooling epochs lie in the last
/// `UNSTAKE_COOLDOWN_PERIOD`, so there are at most
/// `UNSTAKE_COOLDOWN_PERIOD + 2` tranches, and none is dated after `e`.
pub proof fn law_append_bounds_tranches(s: Seq<Lock<Tranche>>, e: u64, amount: u128)
    requires
        locked_count(s) <= 1,
        cooling_distinct(s, e),
    ensures
        locked_count(appended(s, e, amount)) <= 1,
        cooling_distinct(appended(s, e, amount), e),
        sweepable_count(appended(s, e, amount), e) <= 1,
        unlocked_at_count(appended(s, e, amount), e) == 1,
        dated_by(s, e) ==> dated_by(appended(s, e, amount), e)
            && appended(s, e, amount).len() <= crate::requests::UNSTAKE_COOLDOWN_PERIOD + 2,
{
    let a = appended(s, e, amount);
    let fresh = Lock { value: Tranche { withdrawal_amount: amount, unstake_epoch: e, wnear_residual: 0, storage_was_paid: false }, locked: false };
    crate::requests::lemma_appended_locked_count(s, e, amount);
    if s.len() == 0 {
        lemma_shape_push(s, fresh, e);
        assert(s.push(fresh) =~= a);
    } else {
        lemma_shape_kept(s, e);
        let kk = kept(s, e);
        let w = after_collapse(s, e);
        if swept_amount(s, e) > 0 {
            lemma_swept_epoch_matured(s, e);
            lemma_shape_push(kk, Lock { value: merged(s, e), locked: false }, e);
        }
        assert(sweepable_count(w, e) <= 1);
        crate::requests::lemma_first_unlocked_at_bounds(w, e);
        let k = first_unlocked_at(w, e);
        if k >= 0 {
            let y = Lock {
                value: Tranche { withdrawal_amount: (w[k].value.withdrawal_amount + amount) as u128, ..w[k].value },
                locked: false,
            };
            lemma_shape_update(w, k, y, e);
            lemma_cooling_member(w, k, e);
        } else {
            lemma_no_cooling_at(w, e);
            lemma_shape_push(w, fresh, e);
        }
    }
    lemma_unlocked_at_count(a, e);
    lemma_len_split(a, e);
    lemma_cooling_card(a, e);
    if dated_by(s, e) {
        lemma_cooling_window(a, e);
        vstd::set_lib::lemma_int_range(e - 3, e + 1);
        vstd::set_lib::lemma_len_subset(cooling_epochs(a, e), vstd::set_lib::set_int_range(e - 3, e + 1));
    }
}

/// Once every tranche under a hash has cooled down and nothing is in
/// flight, a withdrawal claims everything queued there: the sweep takes the
/// whole amount and keeps no tranche besides the merged one.
pub proof fn law_cooled_down_sweep_takes_all(s: Seq<Lock<Tranche>>, d: u64, e: u64)
    requires
        locked_count(s) == 0,
        dated_by(s, d),
        d + crate::requests::UNSTAKE_COOLDOWN_PERIOD <= e,
    ensures
        swept_amount(s, e) == total_amount(s),
        kept(s, e).len() == 0,
    decreases s.len(),
{
    if s.len() > 0 {
        let t = s.drop_last();
        assert forall|i: int| 0 <= i < t.len() implies (#[trigger] t[i]).value.unstake_epoch <= d by {
            assert(t[i] == s[i]);
        }
        assert(s[s.len() - 1] == s.last());
        law_cooled_down_sweep_takes_all(t, d, e);
    }
}

/// The tranches a recorded unstake leaves under its hash: those of the
/// hash, or none when it had no entry yet.
pub open spec fn appended_tranches(wr: WithdrawalRequests, e: u64, hash: CryptoHash, amount: u128) -> Seq<Lock<Tranche>> {
    match wr.tranches_of(hash) {
        Some(s) => appended(s, e, amount),
        None => appended(Seq::empty(), e, amount),
    }
}

/// What recording an unstake of `amount` under `hash` at epoch `e` does to
/// the queue (`append_request`), all together: the queue total grows by
/// exactly `amount`; every other hash keeps its entry; the hash ends with
/// exactly one unlocked tranche of epoch `e`, at most one lock and at most
/// one unlocked matured tranche; its in-flight tranche is unchanged and still
/// the locked one; every tranche still cooling down keeps its epoch (and is
/// unchanged, unless it is the one of epoch `e` that absorbs the amount). It
/// needs, and keeps, distinct epochs among the hash's cooling tranches. When
/// none of the hash's tranches is dated after `e`, none is afterwards and
/// there are at most `UNSTAKE_COOLDOWN_PERIOD + 2` of them.
pub proof fn law_append_request(wr: WithdrawalRequests, e: u64, hash: CryptoHash, amount: u128)
    requires
        wr.wf(),
        wr.append_fits(e, hash, amount),
        wr.tranches_of(hash) matches Some(s) ==> cooling_distinct(s, e),
    ensures
        ({
            let es = wr.entries();
            let es2 = wr.appended_entries(e, hash, amount);
            let s2 = appended_tranches(wr, e, hash, amount);
            &&& queue_total(es2) == queue_total(es) + amount
            &&& forall|i: int| 0 <= i < es.len() && (#[trigger] es[i]).0 != hash ==> es2[i] == es[i]
            &&& match wr.tranches_of(hash) {
                Some(s) => {
                    &&& es2.len() == es.len()
                    &&& es2[wr.index_of(hash)] == (hash, s2)
                    &&& first_locked(s) >= 0 ==> first_locked(s2) >= 0 && s2[first_locked(s2)] == s[first_locked(s)]
                    &&& forall|i: int| 0 <= i < s.len() && !sweepable(#[trigger] s[i], e)
                        && (s[i].locked || s[i].value.unstake_epoch != e) ==> s2.contains(s[i])
                },
                None => es2 == es.push((hash, s2)),
            }
            &&& unlocked_at_count(s2, e) == 1
            &&& locked_count(s2) <= 1
            &&& sweepable_count(s2, e) <= 1
            &&& cooling_distinct(s2, e)
            &&& (wr.tranches_of(hash) matches Some(s) ==> dated_by(s, e)) ==> dated_by(s2, e)
                && s2.len() <= crate::requests::UNSTAKE_COOLDOWN_PERIOD + 2
        }),
{
    lemma_appended_total(wr, e, hash, amount);
    match wr.tranches_of(hash) {
        Some(s) => {
            let i = wr.index_of(hash);
            assert(locked_count(wr.entries()[i].1) <= 1);
            law_append_bounds_tranches(s, e, amount);
            if first_locked(s) >= 0 {
                law_append_keeps_in_flight(s, e, amount);
            }
            assert forall|k: int| 0 <= k < s.len() && !sweepable(#[trigger] s[k], e)
                && (s[k].locked || s[k].value.unstake_epoch != e) implies appended(s, e, amount).contains(s[k]) by {
                law_append_keeps_cooling_tranches(s, e, amount, k);
            }
            assert forall|k: int| 0 <= k < wr.entries().len() && (#[trigger] wr.entries()[k]).0 != hash
                implies wr.appended_entries(e, hash, amount)[k] == wr.entries()[k] by {
                assert(k != i);
            }
        },
        None => {
            let z = Seq::<Lock<Tranche>>::empty();
            assert(locked_count(z) == 0);
            assert(cooling_distinct(z, e));
            law_append_bounds_tranches(z, e, amount);
        },
    }
}

/// Recording an unstake adds exactly its amount to the tranches of its hash.
pub proof fn law_append_conserves(s: Seq<Lock<Tranche>>, e: u64, amount: u128)
    requires
        crate::requests::can_append(s, e, amount),
    ensures
        total_amount(appended(s, e, amount)) == total_amount(s) + amount,
{
    let fresh = Lock { value: Tranche { withdrawal_amount: amount, unstake_epoch: e, wnear_residual: 0, storage_was_paid: false }, locked: false };
    if s.len() == 0 {
        lemma_total_push(s, fresh);
        assert(s.push(fresh) =~= appended(s, e, amount));
        assert(total_amount(s) == 0);
    } else {
        lemma_total_kept(s, e);
        crate::requests::lemma_swept_nonneg(s, e);
        lemma_total_push(kept(s, e), Lock { value: merged(s, e), locked: false });
        let w = after_collapse(s, e);
        assert(total_amount(w) == total_amount(s));
        let k = first_unlocked_at(w, e);
        crate::requests::lemma_first_unlocked_at_bounds(w, e);
        if k >= 0 {
            lemma_total_update(w, k, Lock {
                value: Tranche { withdrawal_amount: (w[k].value.withdrawal_amount + amount) as u128, ..w[k].value },
                locked: false,
            });
        } else {
            lemma_total_push(w, fresh);
        }
    }
}

proof fn lemma_first_locked_kept(s: Seq<Lock<Tranche>>, e: u64)
    requires
        first_locked(s) >= 0,
    ensures
        first_locked(kept(s, e)) >= 0,
        kept(s, e)[first_locked(kept(s, e))] == s[first_locked(s)],
    decreases s.len(),
{
    crate::requests::lemma_first_locked_bounds(s);
    let d = s.drop_last();
    let k = kept(d, e);
    if first_locked(d) >= 0 {
        lemma_first_locked_kept(d, e);
        crate::requests::lemma_first_locked_bounds(k);
        crate::requests::lemma_first_locked_bounds(d);
        assert(s[first_locked(s)] == d[first_locked(d)]);
        if !sweepable(s.last(), e) {
            lemma_first_locked_push(k, s.last());
            assert(k.push(s.last())[first_locked(k)] == k[first_locked(k)]);
        }
    } else {
        // The last tranche is the first locked one; it is not sweepable.
        lemma_kept_has_no_lock(d, e);
        crate::requests::lemma_first_locked_bounds(d);
        crate::requests::lemma_first_locked_bounds(k);
        assert(s.last().locked);
        assert(kept(s, e) == k.push(s.last()));
        assert(k.push(s.last()).drop_last() =~= k);
        assert(first_locked(k.push(s.last())) == k.len());
    }
}

proof fn lemma_kept_has_no_lock(s: Seq<Lock<Tranche>>, e: u64)
    requires
        first_locked(s) < 0,
    ensures
        first_locked(kept(s, e)) < 0,
    decreases s.len(),
{
    crate::requests::lemma_first_locked_bounds(s);
    crate::requests::lemma_first_locked_bounds(kept(s, e));
    if s.len() > 0 {
        crate::requests::lemma_first_locked_bounds(s.drop_last());
        lemma_kept_has_no_lock(s.drop_last(), e);
        let k = kept(s.drop_last(), e);
        crate::requests::lemma_first_locked_bounds(k);
        if !sweepable(s.last(), e) {
            assert(k.push(s.last()).drop_last() =~= k);
        }
    }
}

proof fn lemma_first_locked_push(s: Seq<Lock<Tranche>>, x: Lock<Tranche>)
    requires
        first_locked(s) >= 0,
    ensures
        first_locked(s.push(x)) == first_locked(s),
{
    assert(s.push(x).drop_last() =~= s);
}

proof fn lemma_first_locked_update(s: Seq<Lock<Tranche>>, k: int, x: Lock<Tranche>)
    requires
        0 <= k < s.len(),
        !s[k].locked,
        !x.locked,
        first_locked(s) >= 0,
    ensures
        first_locked(s.update(k, x)) == first_locked(s),
    decreases s.len(),
{
    crate::requests::lemma_first_locked_bounds(s);
    if first_locked(s.drop_last()) >= 0 {
        if k == s.len() - 1 {
            assert(s.update(k, x).drop_last() =~= s.drop_last());
        } else {
            lemma_first_locked_update(s.drop_last(), k, x);
            assert(s.update(k, x).drop_last() =~= s.drop_last().update(k, x));
        }
    } else {
        // The first locked tranche is the last one, so `k` comes before it.
        assert(k < s.len() - 1);
        assert(s.update(k, x).drop_last() =~= s.drop_last().update(k, x));
        lemma_no_lock_update(s.drop_last(), k, x);
    }
}

proof fn lemma_no_lock_update(s: Seq<Lock<Tranche>>, k: int, x: Lock<Tranche>)
    requires
        0 <= k < s.len(),
        !x.locked,
        first_locked(s) < 0,
    ensures
        first_locked(s.update(k, x)) < 0,
    decreases s.len(),
{
    crate::requests::lemma_first_locked_bounds(s);
    if s.len() > 0 {
        crate::requests::lemma_first_locked_bounds(s.drop_last());
        if k == s.len() - 1 {
            assert(s.update(k, x).drop_last() =~= s.drop_last());
        } else {
            lemma_no_lock_update(s.drop_last(), k, x);
            assert(s.update(k, x).drop_last() =~= s.drop_last().update(k, x));
        }
    }
}

/// An unstake recorded while a withdrawal is in flight never touches the
/// in-flight tranche: it is still the first locked tranche, unchanged.
pub proof fn law_append_keeps_in_flight(s: Seq<Lock<Tranche>>, e: u64, amount: u128)
    requires
        first_locked(s) >= 0,
    ensures
        first_locked(appended(s, e, amount)) >= 0,
        appended(s, e, amount)[first_locked(appended(s, e, amount))] == s[first_locked(s)],
{
    crate::requests::lemma_first_locked_bounds(s);
    let fresh = Lock { value: Tranche { withdrawal_amount: amount, unstake_epoch: e, wnear_residual: 0, storage_was_paid: false }, locked: false };
    lemma_first_locked_kept(s, e);
    let kk = kept(s, e);
    lemma_first_locked_push(kk, Lock { value: merged(s, e), locked: false });
    let w = after_collapse(s, e);
    assert(first_locked(w) == first_locked(kk));
    crate::requests::lemma_first_locked_bounds(w);
    crate::requests::lemma_first_locked_bounds(kk);
    let k = first_unlocked_at(w, e);
    crate::requests::lemma_first_unlocked_at_bounds(w, e);
    if k >= 0 {
        lemma_first_locked_update(w, k, Lock {
            value: Tranche { withdrawal_amount: (w[k].value.withdrawal_amount + amount) as u128, ..w[k].value },
            locked: false,
        });
    } else {
        lemma_first_locked_push(w, fresh);
    }
}

proof fn lemma_kept_not_sweepable(s: Seq<Lock<Tranche>>, e: u64)
    ensures
        swept_amount(kept(s, e), e) == 0,
        crate::requests::swept_residual(kept(s, e), e) == 0,
        !crate::requests::swept_storage(kept(s, e), e),
        swept_epoch(kept(s, e), e) == 0,
    decreases s.len(),
{
    if s.len() > 0 {
        lemma_kept_not_sweepable(s.drop_last(), e);
        let k = kept(s.drop_last(), e);
        if !sweepable(s.last(), e) {
            assert(k.push(s.last()).drop_last() =~= k);
        }
    }
}

proof fn lemma_swept_epoch_bound(s: Seq<Lock<Tranche>>, e: u64)
    ensures
        swept_epoch(s, e) == 0 || swept_epoch(s, e) + 4 <= e,
        swept_amount(s, e) > 0 ==> 4 <= e,
    decreases s.len(),
{
    if s.len() > 0 {
        lemma_swept_epoch_bound(s.drop_last(), e);
    }
}

proof fn lemma_swept_epoch_matured(s: Seq<Lock<Tranche>>, e: u64)
    requires
        swept_amount(s, e) > 0,
    ensures
        is_matured_spec(merged(s, e), e),
{
    lemma_swept_epoch_bound(s, e);
}

/// A withdrawal whose delivery failed can be retried at once for the same
/// claim: once the lock is released, the next sweep locks a tranche equal to
/// the one that was in flight, with no new cooldown.
pub proof fn law_retry_after_release(s: Seq<Lock<Tranche>>, e: u64)
    requires
        locked_count(s) == 0,
        crate::requests::sweep_fits(s, e),
        swept_amount(s, e) > 0,
    ensures
        ({
            let s2 = after_sweep(s, e);
            let j = first_locked(s2);
            let s3 = s2.update(j, Lock { value: s2[j].value, locked: false });
            &&& j >= 0
            &&& locked_count(s2) == 1
            &&& locked_count(s3) == 0
            &&& first_locked(s3) < 0
            &&& swept_amount(s3, e) == swept_amount(s, e)
            &&& swept_residual(s3, e) == swept_residual(s, e)
            &&& merged(s3, e) == merged(s, e)
        }),
{
    let kk = kept(s, e);
    let m = merged(s, e);
    crate::requests::lemma_first_locked_bounds(s);
    lemma_kept_has_no_lock(s, e);
    crate::requests::lemma_first_locked_bounds(kk);
    let s2 = kk.push(Lock { value: m, locked: true });
    assert(s2.drop_last() =~= kk);
    assert(first_locked(s2) == kk.len());
    let s3 = s2.update(kk.len() as int, Lock { value: m, locked: false });
    assert(s3 =~= kk.push(Lock { value: m, locked: false }));
    assert(s3.drop_last() =~= kk);
    lemma_kept_not_sweepable(s, e);
    lemma_swept_epoch_matured(s, e);
    crate::requests::lemma_swept_nonneg(s, e);
    crate::requests::lemma_first_locked_bounds(s2);
    crate::requests::lemma_first_locked_bounds(s3);
}

/// Releasing a lock undoes the sweep that took it, through the queue. Say a
/// sweep of `hash` at `e` (what `amount_of_matured_tranches` does, returning
/// the amount it locks) turned `wr` into `wr1`, and `release_lock` then turned
/// `wr1` into `wr2`. That release found the lock (it returns `true`), a
/// second one finds none (it returns `false` and changes nothing), and the
/// next sweep at `e` is allowed again and locks the same tranche for the same
/// amount: no new cooldown.
pub proof fn law_release_lets_the_same_claim_be_swept(
    wr: WithdrawalRequests,
    wr1: WithdrawalRequests,
    wr2: WithdrawalRequests,
    e: u64,
    hash: CryptoHash,
)
    requires
        wr.wf(),
        wr.tranches_of(hash) matches Some(s) && locked_count(s) == 0 && crate::requests::sweep_fits(s, e)
            && swept_amount(s, e) > 0,
        wr1.wf(),
        wr1.entries() == wr.entries().update(wr.index_of(hash), (hash, after_sweep(wr.tranches_of(hash)->Some_0, e))),
        wr2.wf(),
        wr2.entries() == wr1.released_entries(hash),
    ensures
        wr1.tranches_of(hash) matches Some(s1) && first_locked(s1) >= 0,
        wr2.tranches_of(hash) matches Some(s2) && first_locked(s2) < 0,
        wr2.released_entries(hash) == wr2.entries(),
        ({
            let s = wr.tranches_of(hash)->Some_0;
            let s2 = wr2.tranches_of(hash)->Some_0;
            &&& locked_count(s2) == 0
            &&& crate::requests::sweep_fits(s2, e)
            &&& swept_amount(s2, e) == swept_amount(s, e)
            &&& merged(s2, e) == merged(s, e)
        }),
{
    let s = wr.tranches_of(hash)->Some_0;
    let i = wr.index_of(hash);
    law_retry_after_release(s, e);
    let s1 = after_sweep(s, e);
    assert(wr1.entries()[i] == (hash, s1));
    wr1.lemma_index_of(hash, i);
    let j = first_locked(s1);
    let s3 = s1.update(j, Lock { value: s1[j].value, locked: false });
    assert(wr2.entries()[i] == (hash, s3));
    wr2.lemma_index_of(hash, i);
    crate::requests::lemma_swept_nonneg(s, e);
}

/// Nothing can be withdrawn before the cooldown: when no unlocked tranche
/// under a hash has matured, a sweep takes nothing and changes nothing.
pub proof fn law_immature_not_withdrawable(s: Seq<Lock<Tranche>>, e: u64)
    requires
        forall|i: int| 0 <= i < s.len() ==> !sweepable(#[trigger] s[i], e),
    ensures
        swept_amount(s, e) == 0,
        after_sweep(s, e) == s,
    decreases s.len(),
{
    if s.len() > 0 {
        assert forall|i: int| 0 <= i < s.drop_last().len() implies !sweepable(#[trigger] s.drop_last()[i], e) by {
            assert(s.drop_last()[i] == s[i]);
        }
        law_immature_not_withdrawable(s.drop_last(), e);
        assert(!sweepable(s[s.len() - 1], e));
        assert(kept(s.drop_last(), e).push(s.last()) =~= s);
    }
}

pub(crate) proof fn lemma_queue_total_update(es: Seq<EntryView>, i: int, x: EntryView)
    requires
        0 <= i < es.len(),
    ensures
        queue_total(es.update(i, x)) == queue_total(es) - total_amount(es[i].1) + total_amount(x.1),
    decreases es.len(),
{
    if i == es.len() - 1 {
        assert(es.update(i, x).drop_last() =~= es.drop_last());
    } else {
        lemma_queue_total_update(es.drop_last(), i, x);
        assert(es.update(i, x).drop_last() =~= es.drop_last().update(i, x));
    }
}

pub(crate) proof fn lemma_queue_total_push(es: Seq<EntryView>, x: EntryView)
    ensures
        queue_total(es.push(x)) == queue_total(es) + total_amount(x.1),
{
    assert(es.push(x).drop_last() =~= es);
}

pub(crate) proof fn lemma_queue_total_swap_remove(es: Seq<EntryView>, i: int)
    requires
        0 <= i < es.len(),
    ensures
        queue_total(es.update(i, es.last()).drop_last()) == queue_total(es) - total_amount(es[i].1),
{
    let u = es.update(i, es.last());
    lemma_queue_total_update(es, i, es.last());
    assert(u.last() == es.last());
    assert(u.drop_last().push(u.last()) =~= u);
    lemma_queue_total_push(u.drop_last(), u.last());
}

proof fn lemma_total_split_locked(s: Seq<Lock<Tranche>>)
    ensures
        total_amount(unlocked_only(s)) + locked_total(s) == total_amount(s),
    decreases s.len(),
{
    if s.len() > 0 {
        lemma_total_split_locked(s.drop_last());
        if !s.last().locked {
            lemma_total_push(unlocked_only(s.drop_last()), s.last());
        }
    }
}

proof fn lemma_locked_total_single(s: Seq<Lock<Tranche>>)
    requires
        locked_count(s) <= 1,
    ensures
        locked_total(s) == (if first_locked(s) >= 0 { s[first_locked(s)].value.withdrawal_amount as int } else { 0 }),
    decreases s.len(),
{
    crate::requests::lemma_first_locked_bounds(s);
    if s.len() > 0 {
        let d = s.drop_last();
        crate::requests::lemma_first_locked_bounds(d);
        lemma_locked_total_single(d);
        if s.last().locked {
            assert(locked_count(d) == 0);
            lemma_no_lock_total(d);
        }
    }
}

proof fn lemma_no_lock_total(s: Seq<Lock<Tranche>>)
    requires
        locked_count(s) == 0,
    ensures
        locked_total(s) == 0,
    decreases s.len(),
{
    if s.len() > 0 {
        lemma_no_lock_total(s.drop_last());
    }
}

/// Dropping the in-flight tranche of a hash takes exactly its amount out of
/// the queue.
pub(crate) proof fn lemma_removed_total(wr: crate::requests::WithdrawalRequests, hash: crate::requests::CryptoHash)
    requires
        wr.wf(),
        wr.tranches_of(hash) matches Some(s) && first_locked(s) >= 0,
    ensures
        ({
            let s = wr.tranches_of(hash)->Some_0;
            queue_total(wr.removed_entries(hash)) == queue_total(wr.entries()) - s[first_locked(s)].value.withdrawal_amount
        }),
{
    let s = wr.tranches_of(hash)->Some_0;
    let i = wr.index_of(hash);
    assert(locked_count(wr.entries()[i].1) <= 1);
    lemma_total_split_locked(s);
    lemma_locked_total_single(s);
    if unlocked_only(s).len() == 0 {
        assert(total_amount(unlocked_only(s)) == 0);
        lemma_queue_total_swap_remove(wr.entries(), i);
    } else {
        lemma_queue_total_update(wr.entries(), i, (hash, unlocked_only(s)));
    }
}

/// Changing only lock states keeps every total.
pub(crate) proof fn lemma_released_total(wr: crate::requests::WithdrawalRequests, hash: crate::requests::CryptoHash)
    requires
        wr.wf(),
    ensures
        queue_total(wr.released_entries(hash)) == queue_total(wr.entries()),
{
    if let Some(s) = wr.tranches_of(hash) {
        if first_locked(s) >= 0 {
            crate::requests::lemma_first_locked_bounds(s);
            let j = first_locked(s);
            lemma_total_update(s, j, Lock { value: s[j].value, locked: false });
            lemma_queue_total_update(wr.entries(), wr.index_of(hash),
                (hash, s.update(j, Lock { value: s[j].value, locked: false })));
        }
    }
}

/// Recording an unstake adds exactly its amount to the queue.
pub(crate) proof fn lemma_appended_total(wr: crate::requests::WithdrawalRequests, e: u64, hash: crate::requests::CryptoHash, amount: u128)
    requires
        wr.wf(),
        wr.append_fits(e, hash, amount),
    ensures
        queue_total(wr.appended_entries(e, hash, amount)) == queue_total(wr.entries()) + amount,
{
    match wr.tranches_of(hash) {
        Some(s) => {
            law_append_conserves(s, e, amount);
            lemma_queue_total_update(wr.entries(), wr.index_of(hash), (hash, appended(s, e, amount)));
        },
        None => {
            law_append_conserves(Seq::empty(), e, amount);
            assert(total_amount(Seq::<Lock<Tranche>>::empty()) == 0);
            lemma_queue_total_push(wr.entries(), (hash, appended(Seq::empty(), e, amount)));
        },
    }
}

/// A withdrawal sweep keeps the queue total.
pub(crate) proof fn lemma_sweep_total(wr: crate::requests::WithdrawalRequests, e: u64, hash: crate::requests::CryptoHash)
    requires
        wr.tranches_of(hash) matches Some(s) && crate::requests::sweep_fits(s, e),
    ensures
        queue_total(wr.entries().update(wr.index_of(hash), (hash, after_sweep(wr.tranches_of(hash)->Some_0, e))))
            == queue_total(wr.entries()),
{
    let s = wr.tranches_of(hash)->Some_0;
    law_sweep_conserves(s, e);
    lemma_queue_total_update(wr.entries(), wr.index_of(hash), (hash, after_sweep(s, e)));
}

/// Replacing the in-flight tranche's amount changes the queue total by the
/// difference.
pub(crate) proof fn lemma_locked_value_total(wr: crate::requests::WithdrawalRequests, hash: crate::requests::CryptoHash, v: Tranche)
    requires
        wr.tranches_of(hash) matches Some(s) && first_locked(s) >= 0,
    ensures
        ({
            let s = wr.tranches_of(hash)->Some_0;
            let j = first_locked(s);
            queue_total(wr.entries().update(wr.index_of(hash), (hash, s.update(j, Lock { value: v, locked: true }))))
                == queue_total(wr.entries()) - s[j].value.withdrawal_amount + v.withdrawal_amount
        }),
{
    let s = wr.tranches_of(hash)->Some_0;
    let j = first_locked(s);
    crate::requests::lemma_first_locked_bounds(s);
    lemma_total_update(s, j, Lock { value: v, locked: true });
    lemma_queue_total_update(wr.entries(), wr.index_of(hash), (hash, s.update(j, Lock { value: v, locked: true })));
}


/// A wNEAR delivery ends with a transfer call exactly when the receiver is
/// not the pool itself and the unstake message carries a `msg`; without a
/// `msg` it is a plain transfer, settled as fully delivered. The message's
/// receiver, `msg` and `memo` are handed on, and the wNEAR sent plus the
/// storage deposit paid make up the whole claim.
pub proof fn law_wnear_delivery_calls_only_with_a_message(
    pool: LiquidStakingToken,
    hash: CryptoHash,
    receiver_id: String,
    withdraw_tokens: WithdrawTokens,
    epoch: u64,
    current_account_id: String,
)
    requires
        withdraw_error(pool, hash, receiver_id, withdraw_tokens, epoch, current_account_id) is None,
    ensures
        match withdraw_tokens {
            WithdrawTokens::Native => withdraw_plan_spec(pool, hash, receiver_id, withdraw_tokens, epoch, current_account_id)
                matches WithdrawPlan::Native { receiver_id: r, amount, hash: h } && r == receiver_id && h == hash
                && amount == swept_amount(pool.withdrawal_requests.tranches_of(hash)->Some_0, epoch),
            WithdrawTokens::Wnear { msg, memo, .. } => withdraw_plan_spec(pool, hash, receiver_id, withdraw_tokens, epoch, current_account_id)
                matches WithdrawPlan::Wnear(p) && {
                &&& p.is_call == (receiver_id@ != current_account_id@ && msg is Some)
                &&& msg is None ==> !p.is_call
                &&& p.is_self_withdraw == (receiver_id@ == current_account_id@)
                &&& p.receiver_id == receiver_id
                &&& p.msg == msg
                &&& p.memo == memo
                &&& p.hash == hash
                &&& p.amount_to_send + p.storage_to_pay == swept_amount(pool.withdrawal_requests.tranches_of(hash)->Some_0, epoch)
            },
        },
{
    let s = pool.withdrawal_requests.tranches_of(hash)->Some_0;
    crate::requests::lemma_swept_nonneg(s, epoch);
}

/// A sync that takes in the balance records, as the last known total, the
/// account's balance minus the amount it was told to leave out (a deposit
/// that the caller adds itself).
pub proof fn law_sync_records_balance_net_of_excluded(
    st: PoolStatistics,
    epoch: u64,
    locked: u128,
    balance: u128,
    exclude: u128,
    supply: u128,
)
    requires
        epoch != st.last_epoch_synced,
        sync_spec(st, epoch, locked, balance, exclude, supply) is Ok,
    ensures
        sync_spec(st, epoch, locked, balance, exclude, supply)->Ok_0.0.latest_total_balance == locked + balance - exclude,
{
}

/// A stake settles the books: after a sync that leaves out the attached
/// deposit, and the state update of that stake (which adds the deposit to the
/// total balance and the stake to the backing), a sync in a later epoch at
/// the same balances finds no reward and changes nothing.
pub proof fn law_stake_after_sync_leaves_no_phantom_reward(
    st: PoolStatistics,
    e1: u64,
    e2: u64,
    locked: u128,
    balance: u128,
    deposit: u128,
    stake: u128,
    supply: u128,
    supply2: u128,
)
    requires
        e1 != st.last_epoch_synced,
        e2 != e1,
        sync_spec(st, e1, locked, balance, deposit, supply) is Ok,
        sync_spec(st, e1, locked, balance, deposit, supply)->Ok_0.0.latest_total_balance + deposit <= u128::MAX,
        sync_spec(st, e1, locked, balance, deposit, supply)->Ok_0.0.total_staked_amount + stake <= u128::MAX,
    ensures
        ({
            let st2 = sync_spec(st, e1, locked, balance, deposit, supply)->Ok_0.0;
            let st3 = PoolStatistics {
                latest_total_balance: (st2.latest_total_balance + deposit) as u128,
                total_staked_amount: (st2.total_staked_amount + stake) as u128,
                ..st2
            };
            sync_spec(st3, e2, locked, balance, 0, supply2) == Ok::<(PoolStatistics, SyncOutcome), crate::pool::PoolError>(
                (st3, SyncOutcome { total_reward: 0, fee_lst: 0 }))
        }),
{
    law_sync_records_balance_net_of_excluded(st, e1, locked, balance, deposit, supply);
}


/// A stake mints at the current rate, rounding down: the stake is the
/// deposit less the storage deposit, and the LST minted for it is the
/// largest amount whose value at the current backing per LST does not
/// exceed it (one to one while nothing is minted or nothing backs the
/// supply). Once rewards lift the backing above the supply, fewer LST are
/// minted than NEAR staked.
pub proof fn law_stake_mints_at_the_current_rate(
    st: PoolStatistics,
    storage_deposit: Option<u128>,
    has_msg: bool,
    deposit_amount: u128,
    deposit_token: crate::messages::DepositToken,
    is_contract_staking: bool,
    supply: u128,
)
    requires
        stake_plan_spec(st, storage_deposit, has_msg, deposit_amount, deposit_token, is_contract_staking, supply) is Ok,
    ensures
        ({
            let p = stake_plan_spec(st, storage_deposit, has_msg, deposit_amount, deposit_token, is_contract_staking, supply)->Ok_0;
            let staked = st.total_staked_amount;
            &&& p.stake_amount + (match storage_deposit { Some(x) => x as int, None => 0int }) == deposit_amount
            &&& p.deposit_amount == deposit_amount
            &&& p.lst_tokens > 0
            &&& p.new_total_staked_amount == staked + p.stake_amount
            &&& (supply == 0 || staked == 0) ==> p.lst_tokens == p.stake_amount
            &&& (supply > 0 && staked > 0) ==> p.lst_tokens * staked <= p.stake_amount * supply
                && p.stake_amount * supply < (p.lst_tokens + 1) * staked
            &&& 0 < supply < staked ==> p.lst_tokens < p.stake_amount
        }),
{
    let p = stake_plan_spec(st, storage_deposit, has_msg, deposit_amount, deposit_token, is_contract_staking, supply)->Ok_0;
    let staked = st.total_staked_amount;
    if supply > 0 && staked > 0 {
        let a = p.stake_amount * supply;
        let q = p.lst_tokens as int;
        assert(q == a / (staked as int));
        assert(q * staked <= a && a < (q + 1) * staked) by (nonlinear_arith)
            requires
                q == a / (staked as int),
                staked > 0,
        ;
        if supply < staked {
            assert(q < p.stake_amount) by (nonlinear_arith)
                requires
                    q * staked <= p.stake_amount * supply,
                    0 < supply < staked,
                    p.stake_amount > 0,
            ;
        }
    }
}

/// An unstake burns exactly the LST that was unstaked, whatever the rate,
/// and owes for it the NEAR it is worth after the sync, rounding down: the
/// largest amount not above its value at the backing per LST (the fee minted
/// by the sync counted in the supply). That NEAR leaves the backing, and is
/// never zero nor more than the backing.
pub proof fn law_unstake_burns_what_was_unstaked(
    before: LiquidStakingToken,
    after: LiquidStakingToken,
    lst: u128,
    msg: &crate::messages::UnstakeMessage,
    trigger: crate::messages::UnstakeTrigger,
    epoch: u64,
    locked: u128,
    balance: u128,
    supply: u128,
    out: SyncOutcome,
    plan: UnstakePlan,
)
    requires
        unstake_plan_ok(before, after, lst, msg, trigger, epoch, locked, balance, supply, out, plan),
    ensures
        plan.lst_amount == lst,
        plan.trigger == trigger,
        ({
            let total_lst = supply + out.fee_lst;
            let staked = after.statistics.total_staked_amount;
            &&& total_lst > 0
            &&& plan.unstake_amount * total_lst <= lst * staked
            &&& lst * staked < (plan.unstake_amount + 1) * total_lst
            &&& 0 < plan.unstake_amount <= staked
            &&& plan.new_total_staked_amount + plan.unstake_amount == staked
        }),
{
    let (st2, out2) = sync_spec(before.statistics, epoch, locked, balance, 0, supply)->Ok_0;
    let total_lst = supply + out.fee_lst;
    let staked = st2.total_staked_amount;
    assert(total_lst > 0);
    let a = lst * staked;
    let q = plan.unstake_amount as int;
    assert(q == a / total_lst);
    assert(q * total_lst <= a && a < (q + 1) * total_lst) by (nonlinear_arith)
        requires
            q == a / total_lst,
            total_lst > 0,
    ;
}


/// The number that bytes encode least significant first.
pub open spec fn le_value(b: Seq<u8>) -> nat
    decreases b.len(),
{
    if b.len() == 0 {
        0
    } else {
        b[0] as nat + 256 * le_value(b.drop_first())
    }
}

proof fn lemma_le_value_step(a: u8, rest: Seq<u8>)
    ensures
        le_value(seq![a] + rest) == a as nat + 256 * le_value(rest),
{
    assert((seq![a] + rest).drop_first() =~= rest);
}

proof fn lemma_le_four_bytes(x: nat)
    requires
        x <= u32::MAX,
    ensures
        crate::messages::le_bytes(x, 4).len() == 4,
        le_value(crate::messages::le_bytes(x, 4)) == x,
{
    let x1 = x / 256;
    let x2 = x1 / 256;
    let x3 = x2 / 256;
    let x4 = x3 / 256;
    assert(x4 == 0 && x3 < 256);
    reveal_with_fuel(crate::messages::le_bytes, 5);
    let b0 = crate::messages::le_bytes(x4, 0);
    let b1 = crate::messages::le_bytes(x3, 1);
    let b2 = crate::messages::le_bytes(x2, 2);
    let b3 = crate::messages::le_bytes(x1, 3);
    lemma_le_value_step((x3 % 256) as u8, b0);
    lemma_le_value_step((x2 % 256) as u8, b1);
    lemma_le_value_step((x1 % 256) as u8, b2);
    lemma_le_value_step((x % 256) as u8, b3);
}

/// A Borsh string can be read back: its first four bytes give, least
/// significant first, the number of bytes that follow (the UTF-8 length,
/// not the number of characters), and those bytes are its UTF-8 encoding.
/// This is what makes the hashed bytes of an unstake message its Borsh
/// encoding also for non-ASCII text.
pub proof fn law_borsh_string_is_length_prefixed_utf8(chars: Seq<char>)
    requires
        crate::messages::string_fits(chars),
    ensures
        ({
            let b = crate::messages::borsh_string(chars);
            &&& b.len() == 4 + vstd::utf8::encode_utf8(chars).len()
            &&& le_value(b.take(4)) == b.len() - 4
            &&& b.skip(4) == vstd::utf8::encode_utf8(chars)
        }),
{
    let u = vstd::utf8::encode_utf8(chars);
    lemma_le_four_bytes(u.len());
    let b = crate::messages::borsh_string(chars);
    assert(b.take(4) =~= crate::messages::le_bytes(u.len(), 4));
    assert(b.skip(4) =~= u);
}

} // verus!
