//! The pending withdrawal queue, keyed by the hash of the originating
//! unstake message.
//!
//! Each hash maps to a list of independent [`Tranche`]s. Every successful
//! unstake appends one (folding into a same-epoch sibling and collapsing
//! already-matured tranches to keep the list small), and a withdrawal
//! collapses every currently-matured tranche under the hash into a single
//! in-flight (locked) delivery.
//!
//! Entries are kept in insertion order; removing an entry moves the last
//! entry into its slot, so the order is not stable across removals.

use vstd::prelude::*;

verus! {

/// Upper bound on the number of rows returned by a single paginated view.
pub const MAX_LIMIT: usize = 100;
/// Number of epochs an unstaked amount waits before it can be withdrawn.
pub const UNSTAKE_COOLDOWN_PERIOD: u64 = 4;

/// A 32-byte hash.
pub type CryptoHash = [u8; 32];

/// A value that may be locked by an in-flight operation.
#[derive(Debug, Clone, Copy, PartialEq, Eq, Structural)]
pub struct Lock<T> {
    pub value: T,
    pub locked: bool,
}

impl<T> Lock<T> {
    /// A value free to be taken.
    pub fn unlocked(value: T) -> (r: Self)
        ensures
            r == (Lock { value, locked: false }),
    {
        Lock { value, locked: false }
    }

    /// A value held by an in-flight operation.
    pub fn locked(value: T) -> (r: Self)
        ensures
            r == (Lock { value, locked: true }),
    {
        Lock { value, locked: true }
    }

    /// Whether an in-flight operation holds the value.
    pub fn is_locked(&self) -> (r: bool)
        ensures
            r == self.locked,
    {
        self.locked
    }

    /// The value, unless it is locked.
    pub fn get(&self) -> (r: Option<&T>)
        ensures
            r == (if self.locked { None } else { Some(&self.value) }),
    {
        if self.locked {
            None
        } else {
            Some(&self.value)
        }
    }

    /// The value, whatever the lock state.
    pub fn as_inner_unchecked(&self) -> (r: &T)
        ensures
            *r == self.value,
    {
        &self.value
    }

    /// Clears the lock.
    pub fn force_unlock(&mut self)
        ensures
            *final(self) == (Lock { value: old(self).value, locked: false }),
    {
        self.locked = false;
    }
}

/// One unstaked amount waiting for its cooldown, or being delivered.
#[derive(Debug, Default, Clone, Copy, PartialEq, Eq, Structural)]
pub struct Tranche {
    /// The total NEAR-equivalent amount (yoctoNEAR) claimable from this entry.
    pub withdrawal_amount: u128,
    /// Epoch of the unstake that produced this tranche; the maximum of the
    /// merged epochs for a tranche produced by collapsing matured ones.
    pub unstake_epoch: u64,
    /// How much of `withdrawal_amount` is already held as wNEAR.
    pub wnear_residual: u128,
    /// Whether a previous attempt already paid the receiver's storage deposit.
    pub storage_was_paid: bool,
}

pub open spec fn is_matured_spec(t: Tranche, current_epoch: u64) -> bool {
    t.unstake_epoch + UNSTAKE_COOLDOWN_PERIOD <= current_epoch
}

impl Tranche {
    pub fn new(withdrawal_amount: u128, unstake_epoch: u64) -> (r: Self)
        ensures
            r == (Tranche { withdrawal_amount, unstake_epoch, wnear_residual: 0, storage_was_paid: false }),
    {
        Tranche { withdrawal_amount, unstake_epoch, wnear_residual: 0, storage_was_paid: false }
    }

    /// Whether the cooldown of this tranche has passed at `current_epoch`.
    pub fn is_matured(&self, current_epoch: u64) -> (r: bool)
        ensures
            r == is_matured_spec(*self, current_epoch),
    {
        current_epoch >= UNSTAKE_COOLDOWN_PERIOD && self.unstake_epoch <= current_epoch - UNSTAKE_COOLDOWN_PERIOD
    }
}

/// A tranche that a withdrawal at `current_epoch` would sweep: unlocked and
/// past its cooldown.
pub open spec fn sweepable(l: Lock<Tranche>, current_epoch: u64) -> bool {
    !l.locked && is_matured_spec(l.value, current_epoch)
}

/// The tranches that a sweep at `current_epoch` leaves in place, in order.
pub open spec fn kept(s: Seq<Lock<Tranche>>, e: u64) -> Seq<Lock<Tranche>>
    decreases s.len(),
{
    if s.len() == 0 {
        s
    } else if sweepable(s.last(), e) {
        kept(s.drop_last(), e)
    } else {
        kept(s.drop_last(), e).push(s.last())
    }
}

/// Sum of the amounts of the sweepable tranches.
pub open spec fn swept_amount(s: Seq<Lock<Tranche>>, e: u64) -> int
    decreases s.len(),
{
    if s.len() == 0 {
        0
    } else if sweepable(s.last(), e) {
        swept_amount(s.drop_last(), e) + s.last().value.withdrawal_amount
    } else {
        swept_amount(s.drop_last(), e)
    }
}

/// Sum of the wNEAR residuals of the sweepable tranches.
pub open spec fn swept_residual(s: Seq<Lock<Tranche>>, e: u64) -> int
    decreases s.len(),
{
    if s.len() == 0 {
        0
    } else if sweepable(s.last(), e) {
        swept_residual(s.drop_last(), e) + s.last().value.wnear_residual
    } else {
        swept_residual(s.drop_last(), e)
    }
}

/// Whether any sweepable tranche already had its storage deposit paid.
pub open spec fn swept_storage(s: Seq<Lock<Tranche>>, e: u64) -> bool
    decreases s.len(),
{
    if s.len() == 0 {
        false
    } else if sweepable(s.last(), e) {
        swept_storage(s.drop_last(), e) || s.last().value.storage_was_paid
    } else {
        swept_storage(s.drop_last(), e)
    }
}

/// Largest unstake epoch among the sweepable tranches (0 if there is none).
pub open spec fn swept_epoch(s: Seq<Lock<Tranche>>, e: u64) -> u64
    decreases s.len(),
{
    if s.len() == 0 {
        0
    } else if sweepable(s.last(), e) && s.last().value.unstake_epoch > swept_epoch(s.drop_last(), e) {
        s.last().value.unstake_epoch
    } else {
        swept_epoch(s.drop_last(), e)
    }
}

/// The single tranche that the sweepable tranches merge into.
pub open spec fn merged(s: Seq<Lock<Tranche>>, e: u64) -> Tranche {
    Tranche {
        withdrawal_amount: swept_amount(s, e) as u128,
        unstake_epoch: swept_epoch(s, e),
        wnear_residual: swept_residual(s, e) as u128,
        storage_was_paid: swept_storage(s, e),
    }
}

/// Whether a sweep at `e` can add up the sweepable amounts without overflow.
pub open spec fn sweep_fits(s: Seq<Lock<Tranche>>, e: u64) -> bool {
    swept_amount(s, e) <= u128::MAX && swept_residual(s, e) <= u128::MAX
}

proof fn lemma_swept_prefix(s: Seq<Lock<Tranche>>, e: u64, i: int)
    requires
        0 <= i <= s.len(),
    ensures
        0 <= swept_amount(s.take(i), e) <= swept_amount(s, e),
        0 <= swept_residual(s.take(i), e) <= swept_residual(s, e),
    decreases s.len() - i,
{
    if i < s.len() {
        lemma_swept_prefix(s, e, i + 1);
        assert(s.take(i + 1).drop_last() =~= s.take(i));
    } else {
        assert(s.take(i) =~= s);
    }
    lemma_swept_nonneg(s.take(i), e);
}

pub proof fn lemma_swept_nonneg(s: Seq<Lock<Tranche>>, e: u64)
    ensures
        swept_amount(s, e) >= 0,
        swept_residual(s, e) >= 0,
    decreases s.len(),
{
    if s.len() > 0 {
        lemma_swept_nonneg(s.drop_last(), e);
    }
}

/// Removes every sweepable tranche from `tranches` (keeping the others in
/// order) and returns their merge, or `None` when they add up to nothing.
pub fn collapse_matured_tranches(tranches: &mut Vec<Lock<Tranche>>, current_epoch: u64) -> (r: Option<Tranche>)
    requires
        sweep_fits(old(tranches)@, current_epoch),
    ensures
        final(tranches)@ == kept(old(tranches)@, current_epoch),
        r == (if swept_amount(old(tranches)@, current_epoch) > 0 {
            Some(merged(old(tranches)@, current_epoch))
        } else {
            None::<Tranche>
        }),
{
    let ghost s = tranches@;
    let mut remaining: Vec<Lock<Tranche>> = Vec::new();
    let mut matured_amount: u128 = 0;
    let mut matured_residual: u128 = 0;
    let mut matured_storage = false;
    let mut matured_epoch: u64 = 0;
    let mut i: usize = 0;
    let n = tranches.len();
    proof {
        assert(s.take(0) =~= Seq::<Lock<Tranche>>::empty());
    }
    while i < n
        invariant
            n == s.len(),
            s == tranches@,
            i <= n,
            sweep_fits(s, current_epoch),
            remaining@ == kept(s.take(i as int), current_epoch),
            matured_amount == swept_amount(s.take(i as int), current_epoch),
            matured_residual == swept_residual(s.take(i as int), current_epoch),
            matured_storage == swept_storage(s.take(i as int), current_epoch),
            matured_epoch == swept_epoch(s.take(i as int), current_epoch),
        decreases n - i,
    {
        let l = tranches[i];
        proof {
            assert(s.take(i + 1).drop_last() =~= s.take(i as int));
            assert(s.take(i + 1).last() == l);
            lemma_swept_prefix(s, current_epoch, i + 1);
        }
        // Only unlocked, matured tranches are collected. Locked (in-flight)
        // tranches are skipped so a concurrent withdrawal isn't disturbed,
        // and tranches still in cooldown stay queued for a later sweep.
        let is_unlocked_and_matured = match l.get() {
            Some(t) => t.is_matured(current_epoch),
            None => false,
        };
        if is_unlocked_and_matured {
            matured_amount = matured_amount + l.value.withdrawal_amount;
            matured_residual = matured_residual + l.value.wnear_residual;
            matured_storage = matured_storage || l.value.storage_was_paid;
            if l.value.unstake_epoch > matured_epoch {
                matured_epoch = l.value.unstake_epoch;
            }
        } else {
            remaining.push(l);
        }
        i = i + 1;
    }
    proof {
        assert(s.take(n as int) =~= s);
    }
    *tranches = remaining;
    if matured_amount > 0 {
        Some(Tranche {
            withdrawal_amount: matured_amount,
            unstake_epoch: matured_epoch,
            wnear_residual: matured_residual,
            storage_was_paid: matured_storage,
        })
    } else {
        None
    }
}

/// Number of locked tranches in `s`.
pub open spec fn locked_count(s: Seq<Lock<Tranche>>) -> nat
    decreases s.len(),
{
    if s.len() == 0 {
        0
    } else if s.last().locked {
        locked_count(s.drop_last()) + 1
    } else {
        locked_count(s.drop_last())
    }
}

/// Index of the first unlocked tranche with unstake epoch `e`, or -1.
pub open spec fn first_unlocked_at(s: Seq<Lock<Tranche>>, e: u64) -> int
    decreases s.len(),
{
    if s.len() == 0 {
        -1
    } else if first_unlocked_at(s.drop_last(), e) >= 0 {
        first_unlocked_at(s.drop_last(), e)
    } else if !s.last().locked && s.last().value.unstake_epoch == e {
        s.len() - 1
    } else {
        -1
    }
}

/// Index of the first locked tranche, or -1.
pub open spec fn first_locked(s: Seq<Lock<Tranche>>) -> int
    decreases s.len(),
{
    if s.len() == 0 {
        -1
    } else if first_locked(s.drop_last()) >= 0 {
        first_locked(s.drop_last())
    } else if s.last().locked {
        s.len() - 1
    } else {
        -1
    }
}

/// The tranches of `s` after a sweep at `e` that leaves the merged tranche
/// (if any) unlocked in the queue.
pub open spec fn after_collapse(s: Seq<Lock<Tranche>>, e: u64) -> Seq<Lock<Tranche>> {
    if swept_amount(s, e) > 0 {
        kept(s, e).push(Lock { value: merged(s, e), locked: false })
    } else {
        kept(s, e)
    }
}

/// The tranches after recording an unstake of `amount` at epoch `e`.
pub open spec fn appended(s: Seq<Lock<Tranche>>, e: u64, amount: u128) -> Seq<Lock<Tranche>> {
    let fresh = Lock { value: Tranche { withdrawal_amount: amount, unstake_epoch: e, wnear_residual: 0, storage_was_paid: false }, locked: false };
    if s.len() == 0 {
        seq![fresh]
    } else {
        let w = after_collapse(s, e);
        let k = first_unlocked_at(w, e);
        if k >= 0 {
            w.update(k, Lock {
                value: Tranche { withdrawal_amount: (w[k].value.withdrawal_amount + amount) as u128, ..w[k].value },
                locked: false,
            })
        } else {
            w.push(fresh)
        }
    }
}

/// Recording an unstake of `amount` at `e` adds up without overflow.
pub open spec fn can_append(s: Seq<Lock<Tranche>>, e: u64, amount: u128) -> bool {
    s.len() == 0 || {
        &&& sweep_fits(s, e)
        &&& {
            let w = after_collapse(s, e);
            let k = first_unlocked_at(w, e);
            k >= 0 ==> w[k].value.withdrawal_amount + amount <= u128::MAX
        }
    }
}

/// The tranches after a withdrawal sweep at `e` that locks the merged tranche.
pub open spec fn after_sweep(s: Seq<Lock<Tranche>>, e: u64) -> Seq<Lock<Tranche>> {
    if swept_amount(s, e) > 0 {
        kept(s, e).push(Lock { value: merged(s, e), locked: true })
    } else {
        kept(s, e)
    }
}

/// The unlocked tranches of `s`, in order.
pub open spec fn unlocked_only(s: Seq<Lock<Tranche>>) -> Seq<Lock<Tranche>>
    decreases s.len(),
{
    if s.len() == 0 {
        s
    } else if s.last().locked {
        unlocked_only(s.drop_last())
    } else {
        unlocked_only(s.drop_last()).push(s.last())
    }
}

/// Whether a withdrawal at `e` could sweep something from `s`.
pub open spec fn has_sweepable(s: Seq<Lock<Tranche>>, e: u64) -> bool {
    exists|i: int| 0 <= i < s.len() && sweepable(#[trigger] s[i], e)
}

/// The tranche values of `s`, with the lock state stripped.
pub open spec fn values(s: Seq<Lock<Tranche>>) -> Seq<Tranche> {
    s.map_values(|l: Lock<Tranche>| l.value)
}

/// Sum of all amounts in `s`.
pub open spec fn total_amount(s: Seq<Lock<Tranche>>) -> int
    decreases s.len(),
{
    if s.len() == 0 {
        0
    } else {
        total_amount(s.drop_last()) + s.last().value.withdrawal_amount
    }
}

/// Sum of all amounts queued, over every hash.
pub open spec fn queue_total(es: Seq<EntryView>) -> int
    decreases es.len(),
{
    if es.len() == 0 {
        0
    } else {
        queue_total(es.drop_last()) + total_amount(es.last().1)
    }
}

/// Sum of the amounts of the locked tranches.
pub open spec fn locked_total(s: Seq<Lock<Tranche>>) -> int
    decreases s.len(),
{
    if s.len() == 0 {
        0
    } else if s.last().locked {
        locked_total(s.drop_last()) + s.last().value.withdrawal_amount
    } else {
        locked_total(s.drop_last())
    }
}

proof fn lemma_kept_locked_count(s: Seq<Lock<Tranche>>, e: u64)
    ensures
        locked_count(kept(s, e)) == locked_count(s),
    decreases s.len(),
{
    if s.len() > 0 {
        lemma_kept_locked_count(s.drop_last(), e);
        let k = kept(s.drop_last(), e);
        if !sweepable(s.last(), e) {
            assert(k.push(s.last()).drop_last() =~= k);
        }
    }
}

proof fn lemma_push_locked_count(s: Seq<Lock<Tranche>>, x: Lock<Tranche>)
    ensures
        locked_count(s.push(x)) == locked_count(s) + (if x.locked { 1nat } else { 0nat }),
{
    assert(s.push(x).drop_last() =~= s);
}

proof fn lemma_update_locked_count(s: Seq<Lock<Tranche>>, k: int, x: Lock<Tranche>)
    requires
        0 <= k < s.len(),
        x.locked == s[k].locked,
    ensures
        locked_count(s.update(k, x)) == locked_count(s),
    decreases s.len(),
{
    if k == s.len() - 1 {
        assert(s.update(k, x).drop_last() =~= s.drop_last());
    } else {
        lemma_update_locked_count(s.drop_last(), k, x);
        assert(s.update(k, x).drop_last() =~= s.drop_last().update(k, x));
    }
}

proof fn lemma_first_unlocked_at_prefix(s: Seq<Lock<Tranche>>, e: u64, m: int)
    requires
        0 <= m <= s.len(),
        first_unlocked_at(s.take(m), e) >= 0,
    ensures
        first_unlocked_at(s, e) == first_unlocked_at(s.take(m), e),
    decreases s.len() - m,
{
    if m < s.len() {
        assert(s.take(m + 1).drop_last() =~= s.take(m));
        lemma_first_unlocked_at_prefix(s, e, m + 1);
    } else {
        assert(s.take(m) =~= s);
    }
}

pub(crate) proof fn lemma_first_unlocked_at_bounds(s: Seq<Lock<Tranche>>, e: u64)
    ensures
        -1 <= first_unlocked_at(s, e) < s.len(),
        first_unlocked_at(s, e) >= 0 ==> !s[first_unlocked_at(s, e)].locked
            && s[first_unlocked_at(s, e)].value.unstake_epoch == e,
    decreases s.len(),
{
    if s.len() > 0 {
        lemma_first_unlocked_at_bounds(s.drop_last(), e);
    }
}

proof fn lemma_first_locked_prefix(s: Seq<Lock<Tranche>>, m: int)
    requires
        0 <= m <= s.len(),
        first_locked(s.take(m)) >= 0,
    ensures
        first_locked(s) == first_locked(s.take(m)),
    decreases s.len() - m,
{
    if m < s.len() {
        assert(s.take(m + 1).drop_last() =~= s.take(m));
        lemma_first_locked_prefix(s, m + 1);
    } else {
        assert(s.take(m) =~= s);
    }
}

pub(crate) proof fn lemma_first_locked_bounds(s: Seq<Lock<Tranche>>)
    ensures
        -1 <= first_locked(s) < s.len(),
        first_locked(s) >= 0 ==> s[first_locked(s)].locked,
        first_locked(s) < 0 <==> locked_count(s) == 0,
    decreases s.len(),
{
    if s.len() > 0 {
        lemma_first_locked_bounds(s.drop_last());
    }
}

/// Sweeps `tranches` at `current_epoch` and leaves the merged tranche, if
/// any, unlocked; then folds `amount` into the first unlocked tranche of
/// epoch `current_epoch`, or appends it as a fresh tranche.
fn append_to_tranches(tranches: &mut Vec<Lock<Tranche>>, current_epoch: u64, amount: u128)
    requires
        can_append(old(tranches)@, current_epoch, amount),
    ensures
        final(tranches)@ == appended(old(tranches)@, current_epoch, amount),
{
    let ghost s = tranches@;
    if tranches.len() == 0 {
        tranches.push(Lock::unlocked(Tranche::new(amount, current_epoch)));
        assert(tranches@ =~= appended(s, current_epoch, amount));
        return;
    }
    let collapsed = collapse_matured_tranches(tranches, current_epoch);
    if let Some(tranche) = collapsed {
        tranches.push(Lock::unlocked(tranche));
    }
    let ghost w = tranches@;
    assert(w == after_collapse(s, current_epoch));
    let found_at = find_unlocked_at(tranches, current_epoch);
    proof {
        lemma_first_unlocked_at_bounds(w, current_epoch);
    }
    match found_at {
        Some(k) => {
            let mut l = tranches[k];
            l.value.withdrawal_amount = l.value.withdrawal_amount + amount;
            tranches.set(k, l);
        },
        None => {
            tranches.push(Lock::unlocked(Tranche::new(amount, current_epoch)));
        },
    }
    assert(tranches@ =~= appended(s, current_epoch, amount));
}

/// Position of the first unlocked tranche of `tranches` with unstake epoch
/// `current_epoch`.
fn find_unlocked_at(tranches: &Vec<Lock<Tranche>>, current_epoch: u64) -> (r: Option<usize>)
    ensures
        match r {
            Some(k) => k == first_unlocked_at(tranches@, current_epoch),
            None => first_unlocked_at(tranches@, current_epoch) == -1,
        },
{
    let ghost w = tranches@;
    let n = tranches.len();
    let mut k: usize = 0;
    proof {
        assert(w.take(0) =~= Seq::<Lock<Tranche>>::empty());
    }
    while k < n
        invariant
            n == w.len(),
            w == tranches@,
            k <= n,
            first_unlocked_at(w.take(k as int), current_epoch) == -1,
        decreases n - k,
    {
        proof {
            assert(w.take(k + 1).drop_last() =~= w.take(k as int));
        }
        if !tranches[k].locked && tranches[k].value.unstake_epoch == current_epoch {
            proof {
                lemma_first_unlocked_at_prefix(w, current_epoch, k + 1);
            }
            return Some(k);
        }
        k = k + 1;
    }
    proof {
        assert(w.take(n as int) =~= w);
    }
    None
}

/// Whether the sweepable amounts of `tranches` add up without overflow.
fn swept_amount_fits_exec(tranches: &Vec<Lock<Tranche>>, current_epoch: u64) -> (r: bool)
    ensures
        r == (swept_amount(tranches@, current_epoch) <= u128::MAX),
{
    let ghost s = tranches@;
    let n = tranches.len();
    let mut amount: u128 = 0;
    let mut i: usize = 0;
    proof {
        assert(s.take(0) =~= Seq::<Lock<Tranche>>::empty());
    }
    while i < n
        invariant
            n == s.len(),
            s == tranches@,
            i <= n,
            amount == swept_amount(s.take(i as int), current_epoch),
        decreases n - i,
    {
        proof {
            assert(s.take(i + 1).drop_last() =~= s.take(i as int));
            lemma_swept_prefix(s, current_epoch, i + 1);
        }
        let l = tranches[i];
        let matured = match l.get() {
            Some(t) => t.is_matured(current_epoch),
            None => false,
        };
        if matured {
            if amount > u128::MAX - l.value.withdrawal_amount {
                return false;
            }
            amount = amount + l.value.withdrawal_amount;
        }
        i = i + 1;
    }
    proof {
        assert(s.take(n as int) =~= s);
    }
    true
}

/// Whether the sweepable amounts and residuals of `tranches` add up without
/// overflow.
fn sweep_fits_exec(tranches: &Vec<Lock<Tranche>>, current_epoch: u64) -> (r: bool)
    ensures
        r == sweep_fits(tranches@, current_epoch),
{
    let ghost s = tranches@;
    let n = tranches.len();
    let mut amount: u128 = 0;
    let mut residual: u128 = 0;
    let mut i: usize = 0;
    proof {
        assert(s.take(0) =~= Seq::<Lock<Tranche>>::empty());
    }
    while i < n
        invariant
            n == s.len(),
            s == tranches@,
            i <= n,
            amount == swept_amount(s.take(i as int), current_epoch),
            residual == swept_residual(s.take(i as int), current_epoch),
        decreases n - i,
    {
        proof {
            assert(s.take(i + 1).drop_last() =~= s.take(i as int));
            lemma_swept_prefix(s, current_epoch, i + 1);
        }
        let l = tranches[i];
        let matured = match l.get() {
            Some(t) => t.is_matured(current_epoch),
            None => false,
        };
        if matured {
            if amount > u128::MAX - l.value.withdrawal_amount || residual > u128::MAX - l.value.wnear_residual {
                return false;
            }
            amount = amount + l.value.withdrawal_amount;
            residual = residual + l.value.wnear_residual;
        }
        i = i + 1;
    }
    proof {
        assert(s.take(n as int) =~= s);
    }
    true
}

/// A copy of `tranches`.
fn copy_tranches(tranches: &Vec<Lock<Tranche>>) -> (r: Vec<Lock<Tranche>>)
    ensures
        r@ == tranches@,
{
    let mut out: Vec<Lock<Tranche>> = Vec::new();
    let n = tranches.len();
    let mut i: usize = 0;
    while i < n
        invariant
            n == tranches@.len(),
            i <= n,
            out@ == tranches@.take(i as int),
        decreases n - i,
    {
        out.push(tranches[i]);
        i = i + 1;
        proof {
            assert(out@ =~= tranches@.take(i as int));
        }
    }
    proof {
        assert(tranches@.take(n as int) =~= tranches@);
    }
    out
}

/// Whether recording an unstake of `amount` at `current_epoch` on
/// `tranches` adds up without overflow.
fn can_append_exec(tranches: &Vec<Lock<Tranche>>, current_epoch: u64, amount: u128) -> (r: bool)
    ensures
        r == can_append(tranches@, current_epoch, amount),
{
    if tranches.len() == 0 {
        return true;
    }
    if !sweep_fits_exec(tranches, current_epoch) {
        return false;
    }
    let mut w = copy_tranches(tranches);
    let collapsed = collapse_matured_tranches(&mut w, current_epoch);
    if let Some(tranche) = collapsed {
        w.push(Lock::unlocked(tranche));
    }
    assert(w@ == after_collapse(tranches@, current_epoch));
    proof {
        lemma_first_unlocked_at_bounds(w@, current_epoch);
    }
    match find_unlocked_at(&w, current_epoch) {
        Some(k) => w[k].value.withdrawal_amount <= u128::MAX - amount,
        None => true,
    }
}

/// The merged tranche that a withdrawal sweep at `current_epoch` would lock.
fn preview_merged(tranches: &Vec<Lock<Tranche>>, current_epoch: u64) -> (r: Option<Tranche>)
    requires
        sweep_fits(tranches@, current_epoch),
    ensures
        r == (if swept_amount(tranches@, current_epoch) > 0 {
            Some(merged(tranches@, current_epoch))
        } else {
            None::<Tranche>
        }),
{
    let mut w = copy_tranches(tranches);
    collapse_matured_tranches(&mut w, current_epoch)
}

/// Whether two hashes are equal, byte by byte.
fn hash_eq(a: &CryptoHash, b: &CryptoHash) -> (r: bool)
    ensures
        r == (*a == *b),
{
    let mut i: usize = 0;
    while i < 32
        invariant
            i <= 32,
            forall|j: int| 0 <= j < i ==> a@[j] == b@[j],
        decreases 32 - i,
    {
        if a[i] != b[i] {
            return false;
        }
        i = i + 1;
    }
    proof {
        assert(a@ =~= b@);
        assert(*a == *b);
    }
    true
}

/// The pending withdrawal queue.
#[derive(Debug)]
pub struct WithdrawalRequests {
    /// Queue entries: each hash with its tranches, in the key order of the
    /// underlying storage.
    pub requests: Vec<(CryptoHash, Vec<Lock<Tranche>>)>,
}

/// One queue entry as the specifications see it.
pub type EntryView = (CryptoHash, Seq<Lock<Tranche>>);

impl WithdrawalRequests {
    /// The queue as a sequence of (hash, tranches) pairs.
    pub open spec fn entries(&self) -> Seq<EntryView> {
        self.requests@.map_values(|e: (CryptoHash, Vec<Lock<Tranche>>)| (e.0, e.1@))
    }

    /// Well-formedness: at most `u32::MAX` entries, no hash twice, and at most
    /// one locked (in-flight) tranche per hash.
    pub open spec fn wf(&self) -> bool {
        &&& self.entries().len() <= u32::MAX
        &&& forall|i: int, j: int|
            0 <= i < self.entries().len() && 0 <= j < self.entries().len() && i != j
                ==> #[trigger] self.entries()[i].0 != #[trigger] self.entries()[j].0
        &&& forall|i: int| 0 <= i < self.entries().len() ==> locked_count(#[trigger] self.entries()[i].1) <= 1
    }

    /// Position of `hash` in the queue, or -1.
    pub open spec fn index_of(&self, hash: CryptoHash) -> int {
        if exists|i: int| 0 <= i < self.entries().len() && #[trigger] self.entries()[i].0 == hash {
            choose|i: int| 0 <= i < self.entries().len() && #[trigger] self.entries()[i].0 == hash
        } else {
            -1
        }
    }

    /// The tranches queued under `hash`, if it has an entry.
    pub open spec fn tranches_of(&self, hash: CryptoHash) -> Option<Seq<Lock<Tranche>>> {
        if self.index_of(hash) >= 0 {
            Some(self.entries()[self.index_of(hash)].1)
        } else {
            None
        }
    }

    pub(crate) proof fn lemma_index_of(&self, hash: CryptoHash, i: int)
        requires
            self.wf(),
            0 <= i < self.entries().len(),
            self.entries()[i].0 == hash,
        ensures
            self.index_of(hash) == i,
    {
    }

    /// The queue entries after [`Self::append_request`] records `amount` under
    /// `hash` at epoch `e`.
    pub open spec fn appended_entries(&self, e: u64, hash: CryptoHash, amount: u128) -> Seq<EntryView> {
        match self.tranches_of(hash) {
            Some(s) => self.entries().update(self.index_of(hash), (hash, appended(s, e, amount))),
            None => self.entries().push((hash, appended(Seq::empty(), e, amount))),
        }
    }

    /// Whether [`Self::append_request`] can record `amount` under `hash` at
    /// epoch `e` without overflow.
    pub open spec fn append_fits(&self, e: u64, hash: CryptoHash, amount: u128) -> bool {
        match self.tranches_of(hash) {
            Some(s) => can_append(s, e, amount),
            None => self.entries().len() < u32::MAX,
        }
    }

    /// The amount of the in-flight (locked) tranche of `hash`, if it has one.
    pub open spec fn in_flight_amount(&self, hash: CryptoHash) -> Option<u128> {
        match self.tranches_of(hash) {
            Some(s) => if first_locked(s) >= 0 { Some(s[first_locked(s)].value.withdrawal_amount) } else { None },
            None => None,
        }
    }

    /// The queue entries after [`Self::remove_request`] drops the locked
    /// tranche of `hash` (and the entry, if nothing remains).
    pub open spec fn removed_entries(&self, hash: CryptoHash) -> Seq<EntryView> {
        match self.tranches_of(hash) {
            Some(s) => if unlocked_only(s).len() == 0 {
                self.entries().update(self.index_of(hash), self.entries().last()).drop_last()
            } else {
                self.entries().update(self.index_of(hash), (hash, unlocked_only(s)))
            },
            None => self.entries(),
        }
    }

    /// The queue entries after [`Self::release_lock`] unlocks the locked
    /// tranche of `hash`, if there is one.
    pub open spec fn released_entries(&self, hash: CryptoHash) -> Seq<EntryView> {
        match self.tranches_of(hash) {
            Some(s) => if first_locked(s) >= 0 {
                self.entries().update(
                    self.index_of(hash),
                    (hash, s.update(first_locked(s), Lock { value: s[first_locked(s)].value, locked: false })),
                )
            } else {
                self.entries()
            },
            None => self.entries(),
        }
    }

    /// An empty queue.
    pub fn new() -> (r: Self)
        ensures
            r.wf(),
            r.entries() == Seq::<EntryView>::empty(),
    {
        let r = WithdrawalRequests { requests: Vec::new() };
        assert(r.entries() =~= Seq::<EntryView>::empty());
        r
    }

    /// Position of `hash` in the queue.
    fn find(&self, hash: &CryptoHash) -> (r: Option<usize>)
        requires
            self.wf(),
        ensures
            match r {
                Some(i) => i == self.index_of(*hash) && i < self.entries().len(),
                None => self.index_of(*hash) == -1,
            },
    {
        let n = self.requests.len();
        let mut i: usize = 0;
        while i < n
            invariant
                self.wf(),
                n == self.entries().len(),
                i <= n,
                forall|j: int| 0 <= j < i ==> #[trigger] self.entries()[j].0 != *hash,
            decreases n - i,
        {
            if hash_eq(&self.requests[i].0, hash) {
                proof {
                    self.lemma_index_of(*hash, i as int);
                }
                return Some(i);
            }
            i = i + 1;
        }
        None
    }

    /// The number of distinct hashes in the queue.
    pub fn len(&self) -> (r: u32)
        requires
            self.wf(),
        ensures
            r == self.entries().len(),
    {
        self.requests.len() as u32
    }

    /// Records a successful unstake of `amount` under `hash` at
    /// `current_epoch`. Matured, unlocked tranches collapse into one; the
    /// amount folds into an unlocked tranche of the same epoch if there is one.
    /// Locked (in-flight) tranches are never touched.
    pub fn append_request(&mut self, current_epoch: u64, hash: CryptoHash, amount: u128)
        requires
            old(self).wf(),
            old(self).append_fits(current_epoch, hash, amount),
        ensures
            final(self).wf(),
            final(self).entries() == old(self).appended_entries(current_epoch, hash, amount),
    {
        let ghost old_entries = self.entries();
        match self.find(&hash) {
            None => {
                let mut v: Vec<Lock<Tranche>> = Vec::new();
                v.push(Lock::unlocked(Tranche::new(amount, current_epoch)));
                assert(v@ =~= appended(Seq::empty(), current_epoch, amount));
                self.requests.push((hash, v));
                proof {
                    assert(self.entries() =~= old_entries.push((hash, appended(Seq::empty(), current_epoch, amount))));
                    lemma_appended_locked_count(Seq::empty(), current_epoch, amount);
                }
            },
            Some(i) => {
                let ghost s = old_entries[i as int].1;
                append_to_tranches(&mut self.requests[i].1, current_epoch, amount);
                proof {
                    assert(self.entries() =~= old_entries.update(i as int, (hash, appended(s, current_epoch, amount))));
                    lemma_appended_locked_count(s, current_epoch, amount);
                }
            },
        }
    }
}

impl WithdrawalRequests {
    /// Sweeps all matured, unlocked tranches under `hash` into a single
    /// in-flight (locked) tranche, leaving immature tranches untouched, and
    /// returns the amount it carries (zero when nothing has matured or the
    /// hash has no entry). No withdrawal may already be in flight for `hash`.
    pub fn amount_of_matured_tranches(&mut self, current_epoch: u64, hash: CryptoHash) -> (r: u128)
        requires
            old(self).wf(),
            old(self).tranches_of(hash) matches Some(s) ==> locked_count(s) == 0 && sweep_fits(s, current_epoch),
        ensures
            final(self).wf(),
            match old(self).tranches_of(hash) {
                Some(s) => {
                    &&& r == swept_amount(s, current_epoch)
                    &&& final(self).entries() == old(self).entries().update(
                        old(self).index_of(hash),
                        (hash, after_sweep(s, current_epoch)),
                    )
                },
                None => r == 0 && final(self).entries() == old(self).entries(),
            },
    {
        let ghost old_entries = self.entries();
        match self.find(&hash) {
            None => 0,
            Some(i) => {
                let ghost s = old_entries[i as int].1;
                let collapsed = collapse_matured_tranches(&mut self.requests[i].1, current_epoch);
                proof {
                    lemma_kept_locked_count(s, current_epoch);
                }
                match collapsed {
                    Some(tranche) => {
                        let amount = tranche.withdrawal_amount;
                        self.requests[i].1.push(Lock::locked(tranche));
                        proof {
                            lemma_push_locked_count(kept(s, current_epoch), Lock { value: tranche, locked: true });
                            assert(self.entries() =~= old_entries.update(i as int, (hash, after_sweep(s, current_epoch))));
                        }
                        amount
                    },
                    None => {
                        proof {
                            lemma_swept_nonneg(s, current_epoch);
                            assert(self.entries() =~= old_entries.update(i as int, (hash, after_sweep(s, current_epoch))));
                        }
                        0
                    },
                }
            },
        }
    }

    /// Position of the first locked tranche of `tranches`.
    fn find_locked(tranches: &Vec<Lock<Tranche>>) -> (r: Option<usize>)
        ensures
            match r {
                Some(j) => j == first_locked(tranches@),
                None => first_locked(tranches@) == -1,
            },
    {
        let ghost s = tranches@;
        let n = tranches.len();
        let mut j: usize = 0;
        proof {
            assert(s.take(0) =~= Seq::<Lock<Tranche>>::empty());
        }
        while j < n
            invariant
                n == s.len(),
                s == tranches@,
                j <= n,
                first_locked(s.take(j as int)) == -1,
            decreases n - j,
        {
            proof {
                assert(s.take(j + 1).drop_last() =~= s.take(j as int));
            }
            if tranches[j].locked {
                proof {
                    lemma_first_locked_prefix(s, j + 1);
                }
                return Some(j);
            }
            j = j + 1;
        }
        proof {
            assert(s.take(n as int) =~= s);
        }
        None
    }

    /// The in-flight (locked) tranche under `hash`.
    pub fn locked_tranche(&self, hash: &CryptoHash) -> (r: &Tranche)
        requires
            self.wf(),
            self.tranches_of(*hash) matches Some(s) && locked_count(s) > 0,
        ensures
            *r == self.tranches_of(*hash)->Some_0[first_locked(self.tranches_of(*hash)->Some_0)].value,
    {
        let i = self.find(hash).unwrap();
        proof {
            lemma_first_locked_bounds(self.entries()[i as int].1);
        }
        let j = Self::find_locked(&self.requests[i].1).unwrap();
        &self.requests[i].1[j].value
    }

    /// Mutable access to the in-flight (locked) tranche under `hash`.
    pub fn locked_tranche_mut(&mut self, hash: &CryptoHash) -> (r: &mut Tranche)
        requires
            old(self).wf(),
            old(self).tranches_of(*hash) matches Some(s) && locked_count(s) > 0,
        ensures
            ({
                let s = old(self).tranches_of(*hash)->Some_0;
                let j = first_locked(s);
                &&& *r == s[j].value
                &&& final(self).entries() == old(self).entries().update(
                    old(self).index_of(*hash),
                    (*hash, s.update(j, Lock { value: *final(r), locked: true })),
                )
            }),
    {
        let i = self.find(hash).unwrap();
        proof {
            lemma_first_locked_bounds(self.entries()[i as int].1);
        }
        let j = Self::find_locked(&self.requests[i].1).unwrap();
        &mut self.requests[i].1[j].value
    }
}

impl WithdrawalRequests {
    /// Drops the in-flight (locked) tranche under `hash`, keeping the other
    /// tranches; removes the entry when nothing remains. The last entry then
    /// takes the removed entry's position.
    pub fn remove_request(&mut self, hash: &CryptoHash)
        requires
            old(self).wf(),
        ensures
            final(self).wf(),
            final(self).entries() == old(self).removed_entries(*hash),
    {
        let ghost old_entries = self.entries();
        let i = match self.find(hash) {
            None => return,
            Some(i) => i,
        };
        let ghost s = old_entries[i as int].1;
        let mut kept_tranches: Vec<Lock<Tranche>> = Vec::new();
        let n = self.requests[i].1.len();
        let mut j: usize = 0;
        proof {
            assert(s.take(0) =~= Seq::<Lock<Tranche>>::empty());
        }
        while j < n
            invariant
                n == s.len(),
                s == self.entries()[i as int].1,
                self.entries() == old_entries,
                i < old_entries.len(),
                j <= n,
                kept_tranches@ == unlocked_only(s.take(j as int)),
            decreases n - j,
        {
            proof {
                assert(s.take(j + 1).drop_last() =~= s.take(j as int));
            }
            let l = self.requests[i].1[j];
            if !l.is_locked() {
                kept_tranches.push(l);
            }
            j = j + 1;
        }
        proof {
            assert(s.take(n as int) =~= s);
            lemma_unlocked_only_count(s);
        }
        if kept_tranches.len() == 0 {
            self.requests.swap_remove(i);
            proof {
                assert(self.entries() =~= old_entries.update(i as int, old_entries.last()).drop_last());
                assert forall|a: int, b: int|
                    0 <= a < self.entries().len() && 0 <= b < self.entries().len() && a != b
                    implies #[trigger] self.entries()[a].0 != #[trigger] self.entries()[b].0 by {
                    let oa = if a == i { old_entries.len() - 1 } else { a };
                    let ob = if b == i { old_entries.len() - 1 } else { b };
                    assert(self.entries()[a] == old_entries[oa]);
                    assert(self.entries()[b] == old_entries[ob]);
                }
                assert forall|a: int| 0 <= a < self.entries().len()
                    implies locked_count(#[trigger] self.entries()[a].1) <= 1 by {
                    let oa = if a == i { old_entries.len() - 1 } else { a };
                    assert(self.entries()[a] == old_entries[oa]);
                }
            }
        } else {
            self.requests[i].1 = kept_tranches;
            proof {
                assert(self.entries() =~= old_entries.update(i as int, (*hash, unlocked_only(s))));
            }
        }
    }

    /// Unlocks the in-flight tranche under `hash` so a later withdrawal can
    /// retry. Returns whether a locked tranche was found and unlocked.
    pub fn release_lock(&mut self, hash: &CryptoHash) -> (r: bool)
        requires
            old(self).wf(),
        ensures
            final(self).wf(),
            r == (old(self).tranches_of(*hash) matches Some(s) && first_locked(s) >= 0),
            final(self).entries() == old(self).released_entries(*hash),
    {
        let ghost old_entries = self.entries();
        let i = match self.find(hash) {
            None => return false,
            Some(i) => i,
        };
        let ghost s = old_entries[i as int].1;
        match Self::find_locked(&self.requests[i].1) {
            None => false,
            Some(j) => {
                proof {
                    lemma_first_locked_bounds(s);
                    lemma_update_locked_count_unlock(s, j as int);
                }
                self.requests[i].1[j].force_unlock();
                proof {
                    assert(self.entries() =~= old_entries.update(
                        i as int,
                        (*hash, s.update(j as int, Lock { value: s[j as int].value, locked: false })),
                    ));
                }
                true
            },
        }
    }

    /// Every tranche queued under `hash`, with the lock state stripped, or
    /// `None` if the hash has no entry.
    pub fn get_withdrawal_request_tranches(&self, hash: &CryptoHash) -> (r: Option<Vec<Tranche>>)
        requires
            self.wf(),
        ensures
            match self.tranches_of(*hash) {
                Some(s) => r matches Some(v) && v@ == values(s),
                None => r is None,
            },
    {
        match self.find(hash) {
            None => None,
            Some(i) => Some(strip_locks(&self.requests[i].1)),
        }
    }
}

/// The tranche values of `tranches`, in order.
fn strip_locks(tranches: &Vec<Lock<Tranche>>) -> (r: Vec<Tranche>)
    ensures
        r@ == values(tranches@),
{
    let mut out: Vec<Tranche> = Vec::new();
    let n = tranches.len();
    let mut j: usize = 0;
    while j < n
        invariant
            n == tranches@.len(),
            j <= n,
            out@ == values(tranches@.take(j as int)),
        decreases n - j,
    {
        out.push(tranches[j].value);
        proof {
            assert(values(tranches@.take(j + 1)) =~= values(tranches@.take(j as int)).push(tranches@[j as int].value));
        }
        j = j + 1;
    }
    proof {
        assert(tranches@.take(n as int) =~= tranches@);
    }
    out
}

/// Replacing the value of the locked tranche keeps the queue well formed.
pub proof fn lemma_locked_update_wf(before: WithdrawalRequests, after: WithdrawalRequests, hash: CryptoHash, v: Tranche)
    requires
        before.wf(),
        before.tranches_of(hash) matches Some(s) && locked_count(s) > 0,
        after.entries() == before.entries().update(
            before.index_of(hash),
            (hash, before.tranches_of(hash)->Some_0.update(
                first_locked(before.tranches_of(hash)->Some_0),
                Lock { value: v, locked: true },
            )),
        ),
    ensures
        after.wf(),
{
    let s = before.tranches_of(hash)->Some_0;
    let i = before.index_of(hash);
    lemma_first_locked_bounds(s);
    lemma_update_locked_count(s, first_locked(s), Lock { value: v, locked: true });
    assert forall|a: int| 0 <= a < after.entries().len()
        implies locked_count(#[trigger] after.entries()[a].1) <= 1 by {
        if a != i {
            assert(after.entries()[a] == before.entries()[a]);
        }
    }
    assert forall|a: int, b: int|
        0 <= a < after.entries().len() && 0 <= b < after.entries().len() && a != b
        implies #[trigger] after.entries()[a].0 != #[trigger] after.entries()[b].0 by {
        assert(after.entries()[a].0 == before.entries()[a].0);
        assert(after.entries()[b].0 == before.entries()[b].0);
    }
}

proof fn lemma_unlocked_only_count(s: Seq<Lock<Tranche>>)
    ensures
        locked_count(unlocked_only(s)) == 0,
    decreases s.len(),
{
    if s.len() > 0 {
        lemma_unlocked_only_count(s.drop_last());
        if !s.last().locked {
            lemma_push_locked_count(unlocked_only(s.drop_last()), s.last());
        }
    }
}

proof fn lemma_update_locked_count_unlock(s: Seq<Lock<Tranche>>, k: int)
    requires
        0 <= k < s.len(),
        s[k].locked,
    ensures
        locked_count(s.update(k, Lock { value: s[k].value, locked: false })) + 1 == locked_count(s),
    decreases s.len(),
{
    let x = Lock { value: s[k].value, locked: false };
    if k == s.len() - 1 {
        assert(s.update(k, x).drop_last() =~= s.drop_last());
    } else {
        lemma_update_locked_count_unlock(s.drop_last(), k);
        assert(s.update(k, x).drop_last() =~= s.drop_last().update(k, x));
    }
}

/// The base58 text of the bytes `bytes`.
pub uninterp spec fn bs58_of(bytes: Seq<u8>) -> Seq<char>;

/// Base58 encoding of a hash, as `bs58::encode(..).into_string()` computes
/// it (re-exported by `near_sdk`). The text is named, not spelled out.
#[verifier::external_body]
fn bs58_encode(hash: &CryptoHash) -> (r: String)
    ensures
        r@ == bs58_of(hash@),
{
    near_sdk::bs58::encode(hash).into_string()
}

/// One queue entry as the paginated view returns it.
#[derive(Debug)]
pub struct WithdrawalRequest {
    /// Base58 encoding of the entry's hash.
    pub hash: String,
    /// Every tranche queued under that hash, in storage order.
    pub tranches: Vec<Tranche>,
}

/// First position of the page `[skip, skip + min(limit, MAX_LIMIT))` of a
/// sequence of length `len`.
pub open spec fn page_start(len: int, skip: usize) -> int {
    if skip < len { skip as int } else { len }
}

/// One past the last position of that page.
pub open spec fn page_end(len: int, skip: usize, limit: usize) -> int {
    let take = if limit < MAX_LIMIT { limit as int } else { MAX_LIMIT as int };
    let start = page_start(len, skip);
    if start + take < len { start + take } else { len }
}

/// Bounds of the page `[skip, skip + min(limit, MAX_LIMIT))` of `len` items.
fn page(len: usize, skip: usize, limit: usize) -> (r: (usize, usize))
    ensures
        r.0 == page_start(len as int, skip),
        r.1 == page_end(len as int, skip, limit),
        r.0 <= r.1 <= len,
{
    let take = if limit < MAX_LIMIT { limit } else { MAX_LIMIT };
    let start = if skip < len { skip } else { len };
    let end = if take < len - start { start + take } else { len };
    (start, end)
}

/// The hashes with at least one unlocked, matured tranche at `e`, in queue
/// order.
pub open spec fn available(entries: Seq<EntryView>, e: u64) -> Seq<CryptoHash>
    decreases entries.len(),
{
    if entries.len() == 0 {
        Seq::empty()
    } else if has_sweepable(entries.last().1, e) {
        available(entries.drop_last(), e).push(entries.last().0)
    } else {
        available(entries.drop_last(), e)
    }
}

/// Whether `tranches` has an unlocked tranche that has matured at `e`.
fn any_sweepable(tranches: &Vec<Lock<Tranche>>, current_epoch: u64) -> (r: bool)
    ensures
        r == has_sweepable(tranches@, current_epoch),
{
    let n = tranches.len();
    let mut j: usize = 0;
    while j < n
        invariant
            n == tranches@.len(),
            j <= n,
            forall|k: int| 0 <= k < j ==> !sweepable(#[trigger] tranches@[k], current_epoch),
        decreases n - j,
    {
        let matured = match tranches[j].get() {
            Some(t) => t.is_matured(current_epoch),
            None => false,
        };
        if matured {
            return true;
        }
        j = j + 1;
    }
    false
}

impl WithdrawalRequests {
    /// Paginated view of every queue entry: the entries at positions
    /// `[skip, skip + min(limit, MAX_LIMIT))`, each with its hash in base58
    /// and its tranches.
    pub fn get_withdrawal_requests(&self, skip: usize, limit: usize) -> (r: Vec<WithdrawalRequest>)
        requires
            self.wf(),
        ensures
            ({
                let start = page_start(self.entries().len() as int, skip);
                let end = page_end(self.entries().len() as int, skip, limit);
                &&& r@.len() == end - start
                &&& forall|k: int| 0 <= k < r@.len() ==> {
                    &&& (#[trigger] r@[k]).hash@ == bs58_of(self.entries()[start + k].0@)
                    &&& r@[k].tranches@ == values(self.entries()[start + k].1)
                }
            }),
    {
        let (start, end) = page(self.requests.len(), skip, limit);
        let mut out: Vec<WithdrawalRequest> = Vec::new();
        let mut i = start;
        while i < end
            invariant
                start <= i <= end <= self.entries().len(),
                start == page_start(self.entries().len() as int, skip),
                end == page_end(self.entries().len() as int, skip, limit),
                out@.len() == i - start,
                forall|k: int| 0 <= k < out@.len() ==> {
                    &&& (#[trigger] out@[k]).hash@ == bs58_of(self.entries()[start + k].0@)
                    &&& out@[k].tranches@ == values(self.entries()[start + k].1)
                },
            decreases end - i,
        {
            let hash = bs58_encode(&self.requests[i].0);
            let tranches = strip_locks(&self.requests[i].1);
            out.push(WithdrawalRequest { hash, tranches });
            i = i + 1;
        }
        out
    }

    /// Paginated list of the hashes that currently have at least one
    /// unlocked, matured tranche. `skip` and `limit` apply to the filtered
    /// list; `limit` is clamped to `MAX_LIMIT`.
    pub fn get_hashes_available_for_withdrawal(&self, skip: usize, limit: usize, current_epoch: u64) -> (r: Vec<CryptoHash>)
        requires
            self.wf(),
        ensures
            ({
                let a = available(self.entries(), current_epoch);
                r@ == a.subrange(page_start(a.len() as int, skip), page_end(a.len() as int, skip, limit))
            }),
    {
        let ghost es = self.entries();
        let mut matching: Vec<CryptoHash> = Vec::new();
        let n = self.requests.len();
        let mut i: usize = 0;
        proof {
            assert(es.take(0) =~= Seq::<EntryView>::empty());
        }
        while i < n
            invariant
                es == self.entries(),
                n == es.len(),
                i <= n,
                matching@ == available(es.take(i as int), current_epoch),
            decreases n - i,
        {
            proof {
                assert(es.take(i + 1).drop_last() =~= es.take(i as int));
            }
            if any_sweepable(&self.requests[i].1, current_epoch) {
                matching.push(self.requests[i].0);
            }
            i = i + 1;
        }
        proof {
            assert(es.take(n as int) =~= es);
        }
        let ghost a = matching@;
        let (start, end) = page(matching.len(), skip, limit);
        let mut out: Vec<CryptoHash> = Vec::new();
        let mut k = start;
        while k < end
            invariant
                a == matching@,
                start <= k <= end <= a.len(),
                out@ == a.subrange(start as int, k as int),
            decreases end - k,
        {
            out.push(matching[k]);
            proof {
                assert(a.subrange(start as int, k + 1) =~= a.subrange(start as int, k as int).push(a[k as int]));
            }
            k = k + 1;
        }
        out
    }
}

impl WithdrawalRequests {
    /// Whether [`Self::append_request`] can record `amount` under `hash` at
    /// `current_epoch` without overflow.
    pub fn can_append_request(&self, current_epoch: u64, hash: &CryptoHash, amount: u128) -> (r: bool)
        requires
            self.wf(),
        ensures
            r == self.append_fits(current_epoch, *hash, amount),
    {
        match self.find(hash) {
            None => self.requests.len() < 0xffff_ffff,
            Some(i) => can_append_exec(&self.requests[i].1, current_epoch, amount),
        }
    }

    /// Whether a withdrawal for `hash` is in flight (a tranche is locked).
    pub fn is_in_flight(&self, hash: &CryptoHash) -> (r: bool)
        requires
            self.wf(),
        ensures
            r == (self.tranches_of(*hash) matches Some(s) && locked_count(s) > 0),
    {
        match self.find(hash) {
            None => false,
            Some(i) => {
                proof {
                    lemma_first_locked_bounds(self.entries()[i as int].1);
                }
                Self::find_locked(&self.requests[i].1).is_some()
            },
        }
    }

    /// Whether a sweep of `hash` at `current_epoch` adds up without overflow.
    pub fn sweep_fits_for(&self, current_epoch: u64, hash: &CryptoHash) -> (r: bool)
        requires
            self.wf(),
        ensures
            r == (self.tranches_of(*hash) matches Some(s) ==> sweep_fits(s, current_epoch)),
    {
        match self.find(hash) {
            None => true,
            Some(i) => sweep_fits_exec(&self.requests[i].1, current_epoch),
        }
    }

    /// Whether the sweepable amounts under `hash` at `current_epoch` add up
    /// without overflow (true when `hash` has no entry).
    pub fn swept_amount_fits_for(&self, current_epoch: u64, hash: &CryptoHash) -> (r: bool)
        requires
            self.wf(),
        ensures
            r == (self.tranches_of(*hash) matches Some(s) ==> swept_amount(s, current_epoch) <= u128::MAX),
    {
        match self.find(hash) {
            None => true,
            Some(i) => swept_amount_fits_exec(&self.requests[i].1, current_epoch),
        }
    }

    /// The tranche that [`Self::amount_of_matured_tranches`] would lock for
    /// `hash` at `current_epoch`, without changing the queue.
    pub fn preview_sweep(&self, current_epoch: u64, hash: &CryptoHash) -> (r: Option<Tranche>)
        requires
            self.wf(),
            self.tranches_of(*hash) matches Some(s) ==> sweep_fits(s, current_epoch),
        ensures
            r == match self.tranches_of(*hash) {
                Some(s) => if swept_amount(s, current_epoch) > 0 {
                    Some(merged(s, current_epoch))
                } else {
                    None::<Tranche>
                },
                None => None::<Tranche>,
            },
    {
        match self.find(hash) {
            None => None,
            Some(i) => preview_merged(&self.requests[i].1, current_epoch),
        }
    }
}

pub(crate) proof fn lemma_appended_locked_count(s: Seq<Lock<Tranche>>, e: u64, amount: u128)
    ensures
        locked_count(appended(s, e, amount)) == locked_count(s),
{
    let fresh = Lock { value: Tranche { withdrawal_amount: amount, unstake_epoch: e, wnear_residual: 0, storage_was_paid: false }, locked: false };
    if s.len() == 0 {
        lemma_push_locked_count(s, fresh);
        assert(s.push(fresh) =~= seq![fresh]);
    } else {
        lemma_kept_locked_count(s, e);
        lemma_push_locked_count(kept(s, e), Lock { value: merged(s, e), locked: false });
        let w = after_collapse(s, e);
        let k = first_unlocked_at(w, e);
        lemma_first_unlocked_at_bounds(w, e);
        if k >= 0 {
            lemma_update_locked_count(w, k, Lock {
                value: Tranche { withdrawal_amount: (w[k].value.withdrawal_amount + amount) as u128, ..w[k].value },
                locked: false,
            });
        } else {
            lemma_push_locked_count(w, fresh);
        }
    }
}

} // verus!
