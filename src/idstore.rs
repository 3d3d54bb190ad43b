//! Recall phrases for the identity store: eight attempts, two at each of
//! four sizes, each from its own draw of entropy.
use crate::storage::{last_cred, phrase_view};
use vstd::prelude::*;

verus! {

/// The words that a BIP-39 style mapping gives for `entropy` with
/// `checksum_bits` bits of checksum, in the English list.
pub uninterp spec fn mnemonic_of(entropy: Seq<u8>, checksum_bits: nat) -> Seq<Seq<char>>;

/// Relies on bip39_dict: `Entropy::to_mnemonics`, which succeeds when the
/// entropy and checksum bits fill `W` words of 11 bits, and
/// `Mnemonics::to_string` with the English list, which joins the `W` words
/// (none holding whitespace) with spaces.
#[verifier::external_body]
fn mnemonic_words<const W: usize, const FB: usize, const CS: usize>(entropy: &Vec<u8>) -> (r: Vec<
    String,
>)
    requires
        entropy@.len() == FB,
        FB * 8 + CS == W * 11,
        CS <= 256,
    ensures
        r@.len() == W,
        phrase_view(r@) == mnemonic_of(entropy@, CS as nat),
{
    let mut bytes = [0u8; FB];
    bytes.copy_from_slice(entropy.as_slice());
    let mnemonics = bip39_dict::Entropy::<FB>(bytes).to_mnemonics::<W, CS>().unwrap();
    mnemonics.to_string(&bip39_dict::ENGLISH).split_whitespace().map(|w| w.to_string()).collect()
}

/// Relies on rand's `thread_rng` and `Rng::fill`: `n` random bytes.
#[verifier::external_body]
pub fn generate_entropy(n: usize) -> (r: Vec<u8>)
    ensures
        r@.len() == n,
{
    let mut v = vec![0u8; n];
    rand::Rng::fill(&mut rand::thread_rng(), &mut v[..]);
    v
}

/// A recall phrase of `W` words from the first `FB` bytes of `entropy`,
/// with `CS` bits of checksum.
pub fn generate_recall_phrase<const W: usize, const FB: usize, const CS: usize>(entropy: &Vec<u8>) -> (r:
    Vec<String>)
    requires
        FB <= entropy@.len(),
        FB * 8 + CS == W * 11,
        CS <= 256,
    ensures
        r@.len() == W,
        phrase_view(r@) == mnemonic_of(entropy@.subrange(0, FB as int), CS as nat),
{
    let mut prefix: Vec<u8> = Vec::new();
    let mut i: usize = 0;
    while i < FB
        invariant
            FB <= entropy@.len(),
            i <= FB,
            prefix@ == entropy@.subrange(0, i as int),
        decreases FB - i,
    {
        prefix.push(entropy[i]);
        i = i + 1;
        assert(prefix@ =~= entropy@.subrange(0, i as int));
    }
    mnemonic_words::<W, FB, CS>(&prefix)
}

/// The number of entropy bytes of attempt `k` (counted from one).
pub open spec fn attempt_bytes(k: nat) -> nat {
    if k <= 2 {
        2
    } else if k <= 4 {
        4
    } else if k <= 6 {
        5
    } else {
        6
    }
}

/// The number of checksum bits of attempt `k`.
pub open spec fn attempt_checksum(k: nat) -> nat {
    if k <= 2 {
        6
    } else if k <= 4 {
        1
    } else if k <= 6 {
        4
    } else {
        7
    }
}

/// The number of words of attempt `k`.
pub open spec fn attempt_words(k: nat) -> nat {
    if k <= 2 {
        2
    } else if k <= 4 {
        3
    } else if k <= 6 {
        4
    } else {
        5
    }
}

/// The phrase of attempt `k`, from the `k`-th draw.
pub open spec fn attempt_phrase(draws: Seq<Seq<u8>>, k: nat) -> Seq<Seq<char>> {
    mnemonic_of(draws[k - 1].subrange(0, attempt_bytes(k) as int), attempt_checksum(k))
}

/// The first attempt from `k` on whose phrase no stored record uses.
pub open spec fn first_free(
    ids: Seq<(Seq<Seq<char>>, Seq<u8>, Seq<u8>)>,
    draws: Seq<Seq<u8>>,
    k: nat,
) -> Option<nat>
    decreases 9 - k,
{
    if k == 0 || k > 8 {
        None
    } else if last_cred(ids, Some(attempt_phrase(draws, k)), None) is None {
        Some(k)
    } else {
        first_free(ids, draws, k + 1)
    }
}

/// The phrase of attempt `k`.
pub fn attempt(k: usize, entropy: &Vec<u8>) -> (r: Vec<String>)
    requires
        1 <= k <= 8,
        entropy@.len() == 6,
    ensures
        r@.len() == attempt_words(k as nat),
        phrase_view(r@) == mnemonic_of(
            entropy@.subrange(0, attempt_bytes(k as nat) as int),
            attempt_checksum(k as nat),
        ),
{
    if k <= 2 {
        generate_recall_phrase::<2, 2, 6>(entropy)
    } else if k <= 4 {
        generate_recall_phrase::<3, 4, 1>(entropy)
    } else if k <= 6 {
        generate_recall_phrase::<4, 5, 4>(entropy)
    } else {
        generate_recall_phrase::<5, 6, 7>(entropy)
    }
}

} // verus!
