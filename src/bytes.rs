//! Big-endian byte strings and their numeric values.
use vstd::prelude::*;

verus! {

/// `256` raised to the power `k`.
pub open spec fn pow256(k: nat) -> nat
    decreases k,
{
    if k == 0 {
        1
    } else {
        256 * pow256((k - 1) as nat)
    }
}

/// The value of a big-endian byte string.
pub open spec fn be_nat(s: Seq<u8>) -> nat
    decreases s.len(),
{
    if s.len() == 0 {
        0
    } else {
        be_nat(s.drop_last()) * 256 + s.last() as nat
    }
}

/// The `k` low-order bytes of `n`, most significant first.
pub open spec fn be_bytes(n: nat, k: nat) -> Seq<u8>
    decreases k,
{
    if k == 0 {
        Seq::empty()
    } else {
        be_bytes(n / 256, (k - 1) as nat).push((n % 256) as u8)
    }
}

/// The shortest big-endian form of `n`; zero is the single byte `0`.
pub open spec fn min_be(n: nat) -> Seq<u8>
    decreases n,
{
    if n < 256 {
        seq![n as u8]
    } else {
        min_be(n / 256).push((n % 256) as u8)
    }
}

/// A byte string without leading zero bytes, except for the single byte `0`.
pub open spec fn is_minimal_be(s: Seq<u8>) -> bool {
    s.len() >= 1 && (s.len() == 1 || s[0] != 0)
}

pub proof fn lemma_pow256_positive(k: nat)
    ensures
        pow256(k) >= 1,
    decreases k,
{
    if k > 0 {
        lemma_pow256_positive((k - 1) as nat);
    }
}

pub proof fn lemma_pow256_mono(a: nat, b: nat)
    requires
        a <= b,
    ensures
        pow256(a) <= pow256(b),
    decreases b,
{
    if a < b {
        lemma_pow256_mono(a, (b - 1) as nat);
        lemma_pow256_positive((b - 1) as nat);
    }
}

pub proof fn lemma_pow256_small()
    ensures
        pow256(1) == 0x100,
        pow256(2) == 0x10000,
        pow256(4) == 0x1_0000_0000,
        pow256(8) == 0x1_0000_0000_0000_0000,
{
    reveal_with_fuel(pow256, 9);
}

pub proof fn lemma_be_nat_bound(s: Seq<u8>)
    ensures
        be_nat(s) < pow256(s.len()),
    decreases s.len(),
{
    if s.len() > 0 {
        lemma_be_nat_bound(s.drop_last());
        let a = be_nat(s.drop_last());
        let p = pow256((s.len() - 1) as nat);
        assert(a * 256 + s.last() < p * 256) by (nonlinear_arith)
            requires
                a < p,
                s.last() < 256,
        ;
    }
}

pub proof fn lemma_be_bytes_len(n: nat, k: nat)
    ensures
        be_bytes(n, k).len() == k,
    decreases k,
{
    if k > 0 {
        lemma_be_bytes_len(n / 256, (k - 1) as nat);
    }
}

/// Reading back `k` written bytes gives `n`, when `n` fits in them.
pub proof fn lemma_be_nat_of_bytes(n: nat, k: nat)
    requires
        n < pow256(k),
    ensures
        be_nat(be_bytes(n, k)) == n,
    decreases k,
{
    if k > 0 {
        let p = pow256((k - 1) as nat);
        assert(n / 256 < p) by (nonlinear_arith)
            requires
                n < 256 * p,
        ;
        lemma_be_nat_of_bytes(n / 256, (k - 1) as nat);
        let s = be_bytes(n, k);
        assert(s.drop_last() =~= be_bytes(n / 256, (k - 1) as nat));
        assert(n == (n / 256) * 256 + n % 256) by (nonlinear_arith);
    } else {
        reveal_with_fuel(pow256, 1);
    }
}

/// Writing the value of a byte string back in as many bytes gives it again.
pub proof fn lemma_bytes_of_be_nat(s: Seq<u8>)
    ensures
        be_bytes(be_nat(s), s.len()) =~= s,
    decreases s.len(),
{
    if s.len() > 0 {
        let a = be_nat(s.drop_last());
        let l = s.last() as nat;
        assert((a * 256 + l) / 256 == a && (a * 256 + l) % 256 == l) by (nonlinear_arith)
            requires
                l < 256,
        ;
        lemma_bytes_of_be_nat(s.drop_last());
        assert(s =~= s.drop_last().push(s.last()));
    }
}

pub proof fn lemma_min_be(n: nat)
    ensures
        be_nat(min_be(n)) == n,
        is_minimal_be(min_be(n)),
        min_be(n).len() >= 1,
        n >= 256 ==> min_be(n).len() >= 2,
    decreases n,
{
    if n >= 256 {
        lemma_min_be(n / 256);
        let s = min_be(n);
        assert(s.drop_last() =~= min_be(n / 256));
        assert(s.last() as nat == n % 256);
        assert(n == (n / 256) * 256 + n % 256) by (nonlinear_arith);
        assert(be_nat(s) == be_nat(s.drop_last()) * 256 + s.last() as nat);
        assert(s.len() >= 2);
        assert(s[0] == min_be(n / 256)[0]);
        if n / 256 < 256 {
            assert(min_be(n / 256) =~= seq![(n / 256) as u8]);
            assert((n / 256) as u8 != 0);
        } else {
            assert(min_be(n / 256)[0] != 0);
        }
    } else {
        let s = min_be(n);
        assert(s =~= seq![n as u8]);
        assert(s.drop_last() =~= Seq::<u8>::empty());
        assert(be_nat(s.drop_last()) == 0);
        assert(be_nat(s) == n);
    }
}

pub proof fn lemma_minimal_is_min_be(s: Seq<u8>)
    requires
        is_minimal_be(s),
    ensures
        min_be(be_nat(s)) =~= s,
    decreases s.len(),
{
    if s.len() == 1 {
        assert(s.drop_last() =~= Seq::<u8>::empty());
        assert(be_nat(s) == s[0] as nat);
        assert(min_be(s[0] as nat) =~= s);
    } else {
        let t = s.drop_last();
        assert(is_minimal_be(t));
        lemma_minimal_is_min_be(t);
        lemma_be_nat_lower(t);
        let a = be_nat(t);
        let l = s.last() as nat;
        assert((a * 256 + l) / 256 == a && (a * 256 + l) % 256 == l && a * 256 + l >= 256)
            by (nonlinear_arith)
            requires
                l < 256,
                a >= 1,
        ;
        assert(s =~= t.push(s.last()));
    }
}

/// A byte string that starts with a nonzero byte has a nonzero value.
proof fn lemma_be_nat_lower(s: Seq<u8>)
    requires
        s.len() >= 1,
        s[0] != 0,
    ensures
        be_nat(s) >= 1,
    decreases s.len(),
{
    let t = s.drop_last();
    if t.len() >= 1 {
        lemma_be_nat_lower(t);
    } else {
        assert(t =~= Seq::<u8>::empty());
    }
}

/// Appends the `k` low-order bytes of `n`, most significant first.
pub fn push_be(n: u64, k: usize, out: &mut Vec<u8>)
    requires
        k <= 8,
    ensures
        final(out)@ == old(out)@ + be_bytes(n as nat, k as nat),
    decreases k,
{
    if k > 0 {
        push_be(n / 256, k - 1, out);
        out.push((n % 256) as u8);
        assert(final(out)@ =~= old(out)@ + be_bytes(n as nat, k as nat));
    } else {
        assert(final(out)@ =~= old(out)@ + be_bytes(n as nat, k as nat));
    }
}

/// Reads `k` bytes at `pos` as a big-endian number.
pub fn read_be(b: &Vec<u8>, pos: usize, k: usize) -> (r: u64)
    requires
        k <= 8,
        pos + k <= b@.len(),
    ensures
        r as nat == be_nat(b@.subrange(pos as int, pos + k)),
    decreases k,
{
    if k == 0 {
        0
    } else {
        let h = read_be(b, pos, k - 1);
        proof {
            let s = b@.subrange(pos as int, pos + k);
            assert(s.drop_last() =~= b@.subrange(pos as int, pos + k - 1));
            lemma_be_nat_bound(s.drop_last());
            lemma_pow256_mono((k - 1) as nat, 7);
            assert(pow256(7) == 0x100_0000_0000_0000) by {
                reveal_with_fuel(pow256, 8);
            }
            assert(h * 256 + 255 < 0x1_0000_0000_0000_0000) by (nonlinear_arith)
                requires
                    h < 0x100_0000_0000_0000,
            ;
        }
        let hi: u64 = h * 256;
        assert(pos + k <= b.len());
        let idx: usize = pos + (k - 1);
        let lo: u64 = b[idx] as u64;
        hi + lo
    }
}

} // verus!
