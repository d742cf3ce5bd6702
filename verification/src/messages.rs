//! Messages that accompany staking and unstaking, and the hash that keys an
//! unstake in the withdrawal queue.
//!
//! The queue key is the Keccak-256 hash of the Borsh encoding of the
//! [`UnstakeMessage`]; the encoding is produced here, byte by byte.

use vstd::prelude::*;
use vstd::utf8::encode_utf8;
use crate::requests::CryptoHash;

verus! {

/// How unstaked NEAR is handed out once the cooldown has passed.
#[derive(Debug, Clone)]
pub enum WithdrawTokens {
    /// Plain NEAR transfer.
    Native,
    /// Wrapped NEAR, optionally registering the receiver and notifying it.
    Wnear {
        /// Storage deposit (yoctoNEAR) paid to register the receiver on the
        /// wNEAR contract.
        storage_deposit: Option<u128>,
        /// Message for `ft_transfer_call`; a plain `ft_transfer` without it.
        msg: Option<String>,
        /// Memo forwarded with the transfer.
        memo: Option<String>,
        /// Minimum gas for the transfer step.
        min_gas: Option<u64>,
    },
}

/// The recipient of an unstake and the form in which it is withdrawn.
#[derive(Debug, Clone)]
pub struct UnstakeMessage {
    /// The account that receives the unstaked NEAR (or wNEAR).
    pub receiver_id: String,
    /// How the tokens are withdrawn.
    pub withdraw_tokens: WithdrawTokens,
}

/// Where minted LST goes, and what happens after.
#[derive(Debug, Clone)]
pub struct StakeMessage {
    /// The account that receives the minted LST.
    pub receiver_id: String,
    /// If present, `ft_on_transfer` is called on the receiver with it.
    pub msg: Option<String>,
    /// Memo forwarded to `ft_on_transfer`.
    pub memo: Option<String>,
    /// Storage deposit (yoctoNEAR) taken from the stake to register the
    /// receiver on this contract.
    pub storage_deposit: Option<u128>,
    /// Minimum gas for the `ft_on_transfer` step.
    pub min_gas: Option<u64>,
    /// Unstake to start with the tokens the receiver refunds.
    pub refund_message: Option<UnstakeMessage>,
}

/// The token in which a stake was deposited.
#[derive(Debug, Clone, Copy, PartialEq, Eq, Structural)]
pub enum DepositToken {
    Native,
    Wnear,
}

/// What started an unstake.
#[derive(Debug, Clone, Copy, PartialEq, Eq, Structural)]
pub enum UnstakeTrigger {
    /// The unstake was initiated by the user.
    UserRequest,
    /// The unstake was triggered because a receiver refunded minted tokens.
    RefundByContract,
}

/// The `n` low-order bytes of `x`, least significant first.
pub open spec fn le_bytes(x: nat, n: nat) -> Seq<u8>
    decreases n,
{
    if n == 0 {
        Seq::empty()
    } else {
        seq![(x % 256) as u8] + le_bytes(x / 256, (n - 1) as nat)
    }
}

/// Borsh encoding of a string: its UTF-8 length as a little-endian `u32`,
/// then its UTF-8 bytes.
pub open spec fn borsh_string(chars: Seq<char>) -> Seq<u8> {
    le_bytes(encode_utf8(chars).len(), 4) + encode_utf8(chars)
}

/// Borsh encoding of an optional string.
pub open spec fn borsh_option_string(o: Option<String>) -> Seq<u8> {
    match o {
        Some(s) => seq![1u8] + borsh_string(s@),
        None => seq![0u8],
    }
}

/// Borsh encoding of an optional yoctoNEAR amount.
pub open spec fn borsh_option_u128(o: Option<u128>) -> Seq<u8> {
    match o {
        Some(x) => seq![1u8] + le_bytes(x as nat, 16),
        None => seq![0u8],
    }
}

/// Borsh encoding of an optional gas amount.
pub open spec fn borsh_option_u64(o: Option<u64>) -> Seq<u8> {
    match o {
        Some(x) => seq![1u8] + le_bytes(x as nat, 8),
        None => seq![0u8],
    }
}

/// Whether Borsh can encode the string (its length fits in a `u32`).
pub open spec fn string_fits(chars: Seq<char>) -> bool {
    encode_utf8(chars).len() <= u32::MAX
}

pub open spec fn option_string_fits(o: Option<String>) -> bool {
    match o {
        Some(s) => string_fits(s@),
        None => true,
    }
}

/// Borsh encoding of an [`UnstakeMessage`]: the receiver, then the variant
/// index of `withdraw_tokens` followed by its fields in declaration order.
pub open spec fn borsh_unstake_message(m: UnstakeMessage) -> Seq<u8> {
    borsh_string(m.receiver_id@) + match m.withdraw_tokens {
        WithdrawTokens::Native => seq![0u8],
        WithdrawTokens::Wnear { storage_deposit, msg, memo, min_gas } => seq![1u8]
            + borsh_option_u128(storage_deposit) + borsh_option_string(msg)
            + borsh_option_string(memo) + borsh_option_u64(min_gas),
    }
}

/// Whether every string of the message can be Borsh-encoded.
pub open spec fn unstake_message_encodable(m: UnstakeMessage) -> bool {
    &&& string_fits(m.receiver_id@)
    &&& match m.withdraw_tokens {
        WithdrawTokens::Native => true,
        WithdrawTokens::Wnear { msg, memo, .. } => option_string_fits(msg) && option_string_fits(memo),
    }
}

/// The Keccak-256 digest of `bytes`.
pub uninterp spec fn keccak256_of(bytes: Seq<u8>) -> Seq<u8>;

/// Keccak-256 of `bytes`, by `near_sdk::env::keccak256_array`. The digest is
/// named, not spelled out.
#[verifier::external_body]
fn keccak256(bytes: &[u8]) -> (r: CryptoHash)
    ensures
        r@ == keccak256_of(bytes@),
{
    near_sdk::env::keccak256_array(bytes)
}

/// Appends the `n` low-order bytes of `x`, least significant first.
fn push_le(out: &mut Vec<u8>, x: u128, n: usize)
    requires
        n <= 16,
    ensures
        final(out)@ == old(out)@ + le_bytes(x as nat, n as nat),
{
    let ghost start = out@;
    let mut v = x;
    let mut k: usize = 0;
    while k < n
        invariant
            k <= n,
            out@ == start + le_bytes(x as nat, k as nat),
            le_bytes(x as nat, n as nat) == le_bytes(x as nat, k as nat) + le_bytes(v as nat, (n - k) as nat),
        decreases n - k,
    {
        let byte = (v % 256) as u8;
        proof {
            let rest = (n - k - 1) as nat;
            assert(le_bytes(v as nat, (n - k) as nat) == seq![byte] + le_bytes((v / 256) as nat, rest));
            lemma_le_bytes_split(x as nat, k as nat, v as nat, (n - k) as nat);
        }
        out.push(byte);
        v = v / 256;
        k = k + 1;
        proof {
            assert(out@ =~= start + le_bytes(x as nat, k as nat));
        }
    }
}

proof fn lemma_le_bytes_len(x: nat, n: nat)
    ensures
        le_bytes(x, n).len() == n,
    decreases n,
{
    if n > 0 {
        lemma_le_bytes_len(x / 256, (n - 1) as nat);
    }
}

/// Peeling one byte off the tail of a little-endian encoding.
proof fn lemma_le_bytes_split(x: nat, k: nat, v: nat, m: nat)
    requires
        m > 0,
        le_bytes(x, k + m) == le_bytes(x, k) + le_bytes(v, m),
    ensures
        le_bytes(x, k + 1) == le_bytes(x, k) + seq![(v % 256) as u8],
        le_bytes(x, k + m) == le_bytes(x, k + 1) + le_bytes(v / 256, (m - 1) as nat),
    decreases k,
{
    lemma_le_bytes_len(x, k);
    lemma_le_bytes_len(v, m);
    if k == 0 {
        assert(le_bytes(x, 0) =~= Seq::<u8>::empty());
        assert(le_bytes(x, m) =~= le_bytes(v, m));
        assert(le_bytes(x, m) == seq![(x % 256) as u8] + le_bytes(x / 256, (m - 1) as nat));
        assert(le_bytes(v, m) == seq![(v % 256) as u8] + le_bytes(v / 256, (m - 1) as nat));
        assert(le_bytes(x, m)[0] == (x % 256) as u8);
        assert(le_bytes(v, m)[0] == (v % 256) as u8);
        assert(le_bytes(x, 1) == seq![(x % 256) as u8] + le_bytes(x / 256, 0));
        assert(le_bytes(x / 256, 0) =~= Seq::<u8>::empty());
        assert(le_bytes(x, 1) =~= seq![(v % 256) as u8]);
        assert(le_bytes(x, m) =~= seq![(v % 256) as u8] + le_bytes(v / 256, (m - 1) as nat));
    } else {
        let x2 = x / 256;
        let b = seq![(x % 256) as u8];
        let lhs = le_bytes(x, k + m);
        assert(lhs == b + le_bytes(x2, (k - 1 + m) as nat));
        assert(le_bytes(x, k) == b + le_bytes(x2, (k - 1) as nat));
        assert(lhs.subrange(1, lhs.len() as int) =~= le_bytes(x2, (k - 1 + m) as nat));
        assert(lhs.subrange(1, lhs.len() as int) =~= le_bytes(x2, (k - 1) as nat) + le_bytes(v, m));
        lemma_le_bytes_split(x2, (k - 1) as nat, v, m);
        assert(le_bytes(x, k + 1) == b + le_bytes(x2, k));
        assert(le_bytes(x, k + 1) =~= le_bytes(x, k) + seq![(v % 256) as u8]);
        assert(le_bytes(x, k + m) =~= le_bytes(x, k + 1) + le_bytes(v / 256, (m - 1) as nat));
    }
}

/// Appends the bytes of `bytes`.
fn push_bytes(out: &mut Vec<u8>, bytes: &[u8])
    ensures
        final(out)@ == old(out)@ + bytes@,
{
    let ghost start = out@;
    let n = bytes.len();
    let mut k: usize = 0;
    while k < n
        invariant
            n == bytes@.len(),
            k <= n,
            out@ == start + bytes@.take(k as int),
        decreases n - k,
    {
        out.push(bytes[k]);
        k = k + 1;
        proof {
            assert(out@ =~= start + bytes@.take(k as int));
        }
    }
    proof {
        assert(bytes@.take(n as int) =~= bytes@);
    }
}

/// Appends the Borsh encoding of `s`; false (and nothing appended) when its
/// length does not fit in a `u32`.
fn push_string(out: &mut Vec<u8>, s: &String) -> (ok: bool)
    ensures
        ok == string_fits(s@),
        ok ==> final(out)@ == old(out)@ + borsh_string(s@),
        !ok ==> final(out)@ == old(out)@,
{
    let bytes = s.as_str().as_bytes();
    if bytes.len() > 0xffff_ffff {
        return false;
    }
    push_le(out, bytes.len() as u128, 4);
    push_bytes(out, bytes);
    proof {
        assert(out@ =~= old(out)@ + borsh_string(s@));
    }
    true
}

fn push_option_string(out: &mut Vec<u8>, o: &Option<String>) -> (ok: bool)
    ensures
        ok == option_string_fits(*o),
        ok ==> final(out)@ == old(out)@ + borsh_option_string(*o),
{
    match o {
        Some(s) => {
            out.push(1u8);
            let ok = push_string(out, s);
            proof {
                if ok {
                    assert(out@ =~= old(out)@ + borsh_option_string(*o));
                }
            }
            ok
        },
        None => {
            out.push(0u8);
            proof {
                assert(out@ =~= old(out)@ + borsh_option_string(*o));
            }
            true
        },
    }
}

impl UnstakeMessage {
    /// The Borsh encoding of the message, or `None` when one of its strings is
    /// too long to encode.
    pub fn borsh_bytes(&self) -> (r: Option<Vec<u8>>)
        ensures
            unstake_message_encodable(*self) ==> (r matches Some(v) && v@ == borsh_unstake_message(*self)),
            !unstake_message_encodable(*self) ==> r is None,
    {
        let mut out: Vec<u8> = Vec::new();
        if !push_string(&mut out, &self.receiver_id) {
            return None;
        }
        let ghost head = out@;
        match &self.withdraw_tokens {
            WithdrawTokens::Native => {
                out.push(0u8);
            },
            WithdrawTokens::Wnear { storage_deposit, msg, memo, min_gas } => {
                out.push(1u8);
                let ghost a = out@;
                match storage_deposit {
                    Some(x) => {
                        out.push(1u8);
                        push_le(&mut out, *x, 16);
                    },
                    None => {
                        out.push(0u8);
                    },
                }
                assert(out@ =~= a + borsh_option_u128(*storage_deposit));
                let ghost b = out@;
                if !push_option_string(&mut out, msg) {
                    return None;
                }
                let ghost c = out@;
                if !push_option_string(&mut out, memo) {
                    return None;
                }
                let ghost d = out@;
                match min_gas {
                    Some(g) => {
                        out.push(1u8);
                        push_le(&mut out, *g as u128, 8);
                    },
                    None => {
                        out.push(0u8);
                    },
                }
                assert(out@ =~= d + borsh_option_u64(*min_gas));
            },
        }
        assert(out@ =~= borsh_unstake_message(*self));
        Some(out)
    }

    /// The Keccak-256 hash of the Borsh encoding of the message: the key of
    /// its unstakes in the withdrawal queue. `None` when the message cannot
    /// be encoded.
    pub fn hash(&self) -> (r: Option<CryptoHash>)
        ensures
            unstake_message_encodable(*self) ==> (r matches Some(h) && h@ == keccak256_of(borsh_unstake_message(*self))),
            !unstake_message_encodable(*self) ==> r is None,
    {
        match self.borsh_bytes() {
            Some(bytes) => Some(keccak256(bytes.as_slice())),
            None => None,
        }
    }
}

} // verus!
