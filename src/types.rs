//! The ledger's primitive values and their canonical encodings.
use crate::bytes::{be_nat, is_minimal_be, lemma_min_be, lemma_minimal_is_min_be, min_be};
use crate::cbor::{
    at, enc_bytes, expect_head, head, lemma_at_concat, parse_bytes, write_bytes,
    write_head, MAJOR_TAG, MAJOR_UNSIGNED,
};
use num_bigint::BigUint;
use vstd::prelude::*;

verus! {

/// CBOR tag of an address.
pub const ADDRESS_TAG: u64 = 10000;

/// CBOR tag of a positive big number.
pub const POS_BIGNUM_TAG: u64 = 2;

/// CBOR tag of an epoch timestamp.
pub const TIMESTAMP_TAG: u64 = 1;

/// Compares two byte vectors.
pub fn same_bytes(a: &Vec<u8>, b: &Vec<u8>) -> (r: bool)
    ensures
        r == (a@ == b@),
{
    if a.len() != b.len() {
        return false;
    }
    let mut i: usize = 0;
    while i < a.len()
        invariant
            i <= a@.len(),
            a@.len() == b@.len(),
            a@.subrange(0, i as int) == b@.subrange(0, i as int),
        decreases a@.len() - i,
    {
        if a[i] != b[i] {
            assert(a@[i as int] != b@[i as int]);
            return false;
        }
        assert(a@.subrange(0, i + 1) =~= a@.subrange(0, i as int).push(a@[i as int]));
        assert(b@.subrange(0, i + 1) =~= b@.subrange(0, i as int).push(b@[i as int]));
        i = i + 1;
    }
    assert(a@ =~= a@.subrange(0, i as int));
    assert(b@ =~= b@.subrange(0, i as int));
    true
}

/// Copies a byte vector.
pub fn copy_bytes(a: &Vec<u8>) -> (r: Vec<u8>)
    ensures
        r@ == a@,
{
    let mut r: Vec<u8> = Vec::new();
    let mut i: usize = 0;
    while i < a.len()
        invariant
            i <= a@.len(),
            r@ == a@.subrange(0, i as int),
        decreases a@.len() - i,
    {
        r.push(a[i]);
        i = i + 1;
        assert(r@ =~= a@.subrange(0, i as int));
    }
    assert(a@ =~= a@.subrange(0, i as int));
    r
}

/// An account, symbol or other principal, held as its bytes.
#[derive(Debug, Clone)]
pub struct Address {
    pub bytes: Vec<u8>,
}

impl View for Address {
    type V = Seq<u8>;

    open spec fn view(&self) -> Seq<u8> {
        self.bytes@
    }
}

/// Public-key-derived addresses: the category byte `1`, then a 28-byte hash.
pub open spec fn is_public_key_address(a: Seq<u8>) -> bool {
    a.len() == 29 && a[0] == 1
}

/// An address: its tag, then its bytes.
pub open spec fn enc_address(a: Seq<u8>) -> Seq<u8> {
    head(MAJOR_TAG, ADDRESS_TAG) + enc_bytes(a)
}

impl Address {
    pub fn new(bytes: Vec<u8>) -> (r: Address)
        ensures
            r@ == bytes@,
    {
        Address { bytes }
    }

    pub fn is_public_key(&self) -> (r: bool)
        ensures
            r == is_public_key_address(self@),
    {
        self.bytes.len() == 29 && self.bytes[0] == 1
    }

    pub fn same(&self, other: &Address) -> (r: bool)
        ensures
            r == (self@ == other@),
    {
        same_bytes(&self.bytes, &other.bytes)
    }

    pub fn duplicate(&self) -> (r: Address)
        ensures
            r@ == self@,
    {
        Address { bytes: copy_bytes(&self.bytes) }
    }

    pub fn write(&self, out: &mut Vec<u8>)
        ensures
            final(out)@ == old(out)@ + enc_address(self@),
    {
        let ghost before = out@;
        write_head(MAJOR_TAG, ADDRESS_TAG, out);
        write_bytes(self.bytes.as_slice(), out);
        assert(out@ =~= before + enc_address(self@));
    }

    pub fn parse(b: &Vec<u8>, pos: usize) -> (r: Option<(Address, usize)>)
        ensures
            r matches Some((v, e)) ==> e == pos + enc_address(v@).len() && at(
                b@,
                pos as int,
                enc_address(v@),
            ),
            forall|a: Seq<u8>| #[trigger]
                at(b@, pos as int, enc_address(a)) ==> r is Some && r.unwrap().0@ == a,
    {
        proof {
            assert forall|a: Seq<u8>| #[trigger] at(b@, pos as int, enc_address(a)) implies at(
                b@,
                pos as int,
                head(MAJOR_TAG, ADDRESS_TAG),
            ) && at(b@, pos + head(MAJOR_TAG, ADDRESS_TAG).len(), enc_bytes(a)) by {
                lemma_at_concat(b@, pos as int, head(MAJOR_TAG, ADDRESS_TAG), enc_bytes(a));
            }
        }
        match expect_head(b, pos, MAJOR_TAG) {
            Some((t, p)) => {
                if t != ADDRESS_TAG {
                    return None;
                }
                match parse_bytes(b, p) {
                    Some((v, e)) => {
                        proof {
                            lemma_at_concat(b@, pos as int, head(MAJOR_TAG, ADDRESS_TAG), enc_bytes(v@));
                        }
                        Some((Address { bytes: v }, e))
                    },
                    None => None,
                }
            },
            None => None,
        }
    }
}

/// Relies on `BigUint::from_bytes_be`, `+` and `BigUint::to_bytes_be`: the sum
/// of two big-endian values, written in shortest big-endian form.
#[verifier::external_body]
fn big_add(a: &Vec<u8>, b: &Vec<u8>) -> (r: Vec<u8>)
    ensures
        r@ == min_be(be_nat(a@) + be_nat(b@)),
{
    (BigUint::from_bytes_be(a) + BigUint::from_bytes_be(b)).to_bytes_be()
}

/// Relies on `BigUint::from_bytes_be`, `-` and `BigUint::to_bytes_be`: the
/// difference of two big-endian values, which panics below zero.
#[verifier::external_body]
fn big_sub(a: &Vec<u8>, b: &Vec<u8>) -> (r: Vec<u8>)
    requires
        be_nat(b@) <= be_nat(a@),
    ensures
        r@ == min_be((be_nat(a@) - be_nat(b@)) as nat),
{
    (BigUint::from_bytes_be(a) - BigUint::from_bytes_be(b)).to_bytes_be()
}

/// Relies on `BigUint::from_bytes_be` and the order of `BigUint`.
#[verifier::external_body]
fn big_le(a: &Vec<u8>, b: &Vec<u8>) -> (r: bool)
    ensures
        r == (be_nat(a@) <= be_nat(b@)),
{
    BigUint::from_bytes_be(a) <= BigUint::from_bytes_be(b)
}

/// Relies on `BigUint::from(u64)` and `BigUint::to_bytes_be`.
#[verifier::external_body]
fn big_from_u64(v: u64) -> (r: Vec<u8>)
    ensures
        r@ == min_be(v as nat),
{
    BigUint::from(v).to_bytes_be()
}

/// Relies on `BigUint::from_bytes_be` and `BigUint::to_bytes_be`: the value of
/// any big-endian bytes, in shortest form.
#[verifier::external_body]
fn big_normalize(v: &Vec<u8>) -> (r: Vec<u8>)
    ensures
        r@ == min_be(be_nat(v@)),
{
    BigUint::from_bytes_be(v).to_bytes_be()
}

/// A non-negative amount of tokens of any size.
#[derive(Debug)]
pub struct TokenAmount {
    bytes: Vec<u8>,
}

impl View for TokenAmount {
    type V = nat;

    closed spec fn view(&self) -> nat {
        be_nat(self.bytes@)
    }
}

/// A token amount: the positive-bignum tag, then its shortest big-endian bytes.
pub open spec fn enc_amount(v: nat) -> Seq<u8> {
    head(MAJOR_TAG, POS_BIGNUM_TAG) + enc_bytes(min_be(v))
}

impl TokenAmount {
    #[verifier::type_invariant]
    spec fn inv(self) -> bool {
        self.bytes@ == min_be(be_nat(self.bytes@))
    }

    fn from_min(bytes: Vec<u8>) -> (r: TokenAmount)
        requires
            bytes@ == min_be(be_nat(bytes@)),
        ensures
            r@ == be_nat(bytes@),
    {
        TokenAmount { bytes }
    }

    pub fn zero() -> (r: TokenAmount)
        ensures
            r@ == 0,
    {
        let v = vec![0u8];
        proof {
            assert(min_be(0) =~= seq![0u8]);
            lemma_min_be(0);
            assert(v@ =~= seq![0u8]);
        }
        TokenAmount::from_min(v)
    }

    pub fn from_u64(v: u64) -> (r: TokenAmount)
        ensures
            r@ == v,
    {
        let b = big_from_u64(v);
        proof {
            lemma_min_be(v as nat);
        }
        TokenAmount::from_min(b)
    }

    /// The amount that big-endian `v` stands for; leading zeros are ignored.
    pub fn from_bytes(v: Vec<u8>) -> (r: TokenAmount)
        ensures
            r@ == be_nat(v@),
    {
        let b = big_normalize(&v);
        proof {
            lemma_min_be(be_nat(v@));
        }
        TokenAmount::from_min(b)
    }

    pub fn is_zero(&self) -> (r: bool)
        ensures
            r == (self@ == 0),
    {
        proof {
            use_type_invariant(self);
            lemma_min_be(self@);
            if self@ == 0 {
                assert(min_be(0) =~= seq![0u8]);
            }
        }
        self.bytes.len() == 1 && self.bytes[0] == 0
    }

    /// The shortest big-endian bytes of the amount.
    pub fn to_vec(&self) -> (r: Vec<u8>)
        ensures
            r@ == min_be(self@),
    {
        proof {
            use_type_invariant(self);
        }
        copy_bytes(&self.bytes)
    }

    pub fn duplicate(&self) -> (r: TokenAmount)
        ensures
            r@ == self@,
    {
        proof {
            use_type_invariant(self);
        }
        TokenAmount::from_min(copy_bytes(&self.bytes))
    }

    pub fn le(&self, other: &TokenAmount) -> (r: bool)
        ensures
            r == (self@ <= other@),
    {
        big_le(&self.bytes, &other.bytes)
    }

    pub fn same(&self, other: &TokenAmount) -> (r: bool)
        ensures
            r == (self@ == other@),
    {
        proof {
            use_type_invariant(self);
            use_type_invariant(other);
        }
        same_bytes(&self.bytes, &other.bytes)
    }

    pub fn add_assign(&mut self, rhs: TokenAmount)
        ensures
            final(self)@ == old(self)@ + rhs@,
    {
        let sum = big_add(&self.bytes, &rhs.bytes);
        proof {
            lemma_min_be(self@ + rhs@);
        }
        *self = TokenAmount::from_min(sum);
    }

    /// Subtracts `rhs`, stopping at zero.
    pub fn sub_assign(&mut self, rhs: TokenAmount)
        ensures
            final(self)@ == (if old(self)@ <= rhs@ {
                0
            } else {
                (old(self)@ - rhs@) as nat
            }),
    {
        if big_le(&self.bytes, &rhs.bytes) {
            *self = TokenAmount::zero();
        } else {
            let diff = big_sub(&self.bytes, &rhs.bytes);
            proof {
                lemma_min_be((self@ - rhs@) as nat);
            }
            *self = TokenAmount::from_min(diff);
        }
    }

    pub fn write(&self, out: &mut Vec<u8>)
        ensures
            final(out)@ == old(out)@ + enc_amount(self@),
    {
        proof {
            use_type_invariant(self);
        }
        let ghost before = out@;
        write_head(MAJOR_TAG, POS_BIGNUM_TAG, out);
        write_bytes(self.bytes.as_slice(), out);
        assert(out@ =~= before + enc_amount(self@));
    }

    /// Reads an amount; only the shortest byte form is accepted.
    pub fn parse(b: &Vec<u8>, pos: usize) -> (r: Option<(TokenAmount, usize)>)
        ensures
            r matches Some((v, e)) ==> e == pos + enc_amount(v@).len() && at(
                b@,
                pos as int,
                enc_amount(v@),
            ),
            forall|a: nat| #[trigger]
                at(b@, pos as int, enc_amount(a)) ==> r is Some && r.unwrap().0@ == a,
    {
        proof {
            assert forall|a: nat| #[trigger] at(b@, pos as int, enc_amount(a)) implies at(
                b@,
                pos as int,
                head(MAJOR_TAG, POS_BIGNUM_TAG),
            ) && at(b@, pos + head(MAJOR_TAG, POS_BIGNUM_TAG).len(), enc_bytes(min_be(a)))
                && is_minimal_be(min_be(a)) && be_nat(min_be(a)) == a by {
                lemma_at_concat(
                    b@,
                    pos as int,
                    head(MAJOR_TAG, POS_BIGNUM_TAG),
                    enc_bytes(min_be(a)),
                );
                lemma_min_be(a);
            }
        }
        match expect_head(b, pos, MAJOR_TAG) {
            Some((t, p)) => {
                if t != POS_BIGNUM_TAG {
                    return None;
                }
                match parse_bytes(b, p) {
                    Some((v, e)) => {
                        if v.len() == 0 || (v.len() > 1 && v[0] == 0) {
                            return None;
                        }
                        proof {
                            lemma_minimal_is_min_be(v@);
                        }
                        let r = TokenAmount::from_min(v);
                        proof {
                            lemma_at_concat(
                                b@,
                                pos as int,
                                head(MAJOR_TAG, POS_BIGNUM_TAG),
                                enc_bytes(min_be(r@)),
                            );
                        }
                        Some((r, e))
                    },
                    None => None,
                }
            },
            None => None,
        }
    }
}

impl TokenAmount {
    /// The canonical bytes of the amount.
    pub fn encode(&self) -> (r: Vec<u8>)
        ensures
            r@ == enc_amount(self@),
    {
        let mut out: Vec<u8> = Vec::new();
        self.write(&mut out);
        assert(out@ =~= enc_amount(self@));
        out
    }

    /// Reads an amount that fills `b` exactly: the positive-bignum tag over
    /// any big-endian bytes, leading zeros included. What `encode` wrote reads
    /// back as the same amount.
    pub fn decode(b: &Vec<u8>) -> (r: Option<TokenAmount>)
        ensures
            r matches Some(a) ==> exists|raw: Seq<u8>|
                enc_amount_bytes(raw) == b@ && be_nat(raw) == a@,
            forall|raw: Seq<u8>| #[trigger]
                enc_amount_bytes(raw) == b@ ==> r is Some && r.unwrap()@ == be_nat(raw),
            forall|a: nat| #[trigger] enc_amount(a) == b@ ==> r is Some && r.unwrap()@ == a,
    {
        let blen = b.len();
        proof {
            assert forall|raw: Seq<u8>| #[trigger] enc_amount_bytes(raw) == b@ implies at(
                b@,
                0,
                head(MAJOR_TAG, POS_BIGNUM_TAG),
            ) && at(b@, head(MAJOR_TAG, POS_BIGNUM_TAG).len() as int, enc_bytes(raw)) && b@.len()
                == head(MAJOR_TAG, POS_BIGNUM_TAG).len() + enc_bytes(raw).len() by {
                assert(b@.subrange(0, b@.len() as int) =~= b@);
                lemma_at_concat(b@, 0, head(MAJOR_TAG, POS_BIGNUM_TAG), enc_bytes(raw));
            }
            assert forall|a: nat| #[trigger] enc_amount(a) == b@ implies enc_amount_bytes(min_be(a))
                == b@ && be_nat(min_be(a)) == a by {
                lemma_min_be(a);
            }
        }
        let (t, p) = match expect_head(b, 0, MAJOR_TAG) {
            Some(x) => x,
            None => return None,
        };
        if t != POS_BIGNUM_TAG {
            return None;
        }
        let (v, e) = match parse_bytes(b, p) {
            Some(x) => x,
            None => return None,
        };
        if e != blen {
            return None;
        }
        proof {
            lemma_at_concat(b@, 0, head(MAJOR_TAG, POS_BIGNUM_TAG), enc_bytes(v@));
            assert(b@.subrange(0, e as int) =~= b@);
            assert(enc_amount_bytes(v@) == b@);
        }
        Some(TokenAmount::from_bytes(v))
    }
}

/// A token amount as the positive-bignum tag over the given bytes.
pub open spec fn enc_amount_bytes(raw: Seq<u8>) -> Seq<u8> {
    head(MAJOR_TAG, POS_BIGNUM_TAG) + enc_bytes(raw)
}

/// Every amount's bytes are its value in shortest big-endian form: no
/// leading zero byte, except the single byte of zero.
pub proof fn lemma_amount_bytes_minimal(v: nat)
    ensures
        is_minimal_be(min_be(v)),
        be_nat(min_be(v)) == v,
{
    lemma_min_be(v);
}

/// Seconds since the Unix epoch.
#[derive(Debug, Clone, Copy, PartialEq, Eq, Structural, PartialOrd, Ord)]
pub struct Timestamp(pub u64);

/// A timestamp: the epoch tag, then its seconds.
pub open spec fn enc_timestamp(t: u64) -> Seq<u8> {
    head(MAJOR_TAG, TIMESTAMP_TAG) + head(MAJOR_UNSIGNED, t)
}

impl Timestamp {
    pub fn write(&self, out: &mut Vec<u8>)
        ensures
            final(out)@ == old(out)@ + enc_timestamp(self.0),
    {
        let ghost before = out@;
        write_head(MAJOR_TAG, TIMESTAMP_TAG, out);
        write_head(MAJOR_UNSIGNED, self.0, out);
        assert(out@ =~= before + enc_timestamp(self.0));
    }

    pub fn parse(b: &Vec<u8>, pos: usize) -> (r: Option<(Timestamp, usize)>)
        ensures
            r matches Some((v, e)) ==> e == pos + enc_timestamp(v.0).len() && at(
                b@,
                pos as int,
                enc_timestamp(v.0),
            ),
            forall|t: u64| #[trigger]
                at(b@, pos as int, enc_timestamp(t)) ==> r == Some(
                    (Timestamp(t), (pos + enc_timestamp(t).len()) as usize),
                ),
    {
        proof {
            assert forall|t: u64| #[trigger] at(b@, pos as int, enc_timestamp(t)) implies at(
                b@,
                pos as int,
                head(MAJOR_TAG, TIMESTAMP_TAG),
            ) && at(b@, pos + head(MAJOR_TAG, TIMESTAMP_TAG).len(), head(MAJOR_UNSIGNED, t)) by {
                lemma_at_concat(
                    b@,
                    pos as int,
                    head(MAJOR_TAG, TIMESTAMP_TAG),
                    head(MAJOR_UNSIGNED, t),
                );
            }
        }
        match expect_head(b, pos, MAJOR_TAG) {
            Some((t, p)) => {
                if t != TIMESTAMP_TAG {
                    return None;
                }
                match expect_head(b, p, MAJOR_UNSIGNED) {
                    Some((s, e)) => {
                        proof {
                            lemma_at_concat(
                                b@,
                                pos as int,
                                head(MAJOR_TAG, TIMESTAMP_TAG),
                                head(MAJOR_UNSIGNED, s),
                            );
                        }
                        Some((Timestamp(s), e))
                    },
                    None => None,
                }
            },
            None => None,
        }
    }
}

/// A transaction identifier: the block height in the high half, the place
/// within the block in the low half.
#[derive(Debug, Clone, Copy, PartialEq, Eq, Structural, PartialOrd, Ord)]
pub struct TransactionId(pub u64);

impl TransactionId {
    /// The eight big-endian bytes of the identifier.
    pub fn to_vec(&self) -> (r: Vec<u8>)
        ensures
            r@ == crate::bytes::be_bytes(self.0 as nat, 8),
    {
        let mut out: Vec<u8> = Vec::new();
        crate::bytes::push_be(self.0, 8, &mut out);
        assert(out@ =~= crate::bytes::be_bytes(self.0 as nat, 8));
        out
    }
}

/// The kind of a transaction.
#[derive(Debug, Clone, Copy, PartialEq, Eq, Structural, PartialOrd, Ord)]
pub enum TransactionKind {
    Send,
    Mint,
    Burn,
}

/// The number that stands for a kind.
pub open spec fn kind_code(k: TransactionKind) -> u64 {
    match k {
        TransactionKind::Send => 0,
        TransactionKind::Mint => 1,
        TransactionKind::Burn => 2,
    }
}

impl TransactionKind {
    pub fn code(&self) -> (r: u64)
        ensures
            r == kind_code(*self),
    {
        match self {
            TransactionKind::Send => 0,
            TransactionKind::Mint => 1,
            TransactionKind::Burn => 2,
        }
    }

    pub fn from_code(c: u64) -> (r: Option<TransactionKind>)
        ensures
            r matches Some(k) ==> kind_code(k) == c,
            r is None <==> c > 2,
    {
        if c == 0 {
            Some(TransactionKind::Send)
        } else if c == 1 {
            Some(TransactionKind::Mint)
        } else if c == 2 {
            Some(TransactionKind::Burn)
        } else {
            None
        }
    }

    pub fn write(&self, out: &mut Vec<u8>)
        ensures
            final(out)@ == old(out)@ + head(MAJOR_UNSIGNED, kind_code(*self)),
    {
        write_head(MAJOR_UNSIGNED, self.code(), out);
    }

    pub fn parse(b: &Vec<u8>, pos: usize) -> (r: Option<(TransactionKind, usize)>)
        ensures
            r matches Some((k, e)) ==> e == pos + head(MAJOR_UNSIGNED, kind_code(k)).len() && at(
                b@,
                pos as int,
                head(MAJOR_UNSIGNED, kind_code(k)),
            ),
            forall|k: TransactionKind| #[trigger]
                at(b@, pos as int, head(MAJOR_UNSIGNED, kind_code(k))) ==> r == Some(
                    (k, (pos + head(MAJOR_UNSIGNED, kind_code(k)).len()) as usize),
                ),
    {
        match expect_head(b, pos, MAJOR_UNSIGNED) {
            Some((c, e)) => match TransactionKind::from_code(c) {
                Some(k) => Some((k, e)),
                None => {
                    proof {
                        assert forall|k: TransactionKind| #[trigger]
                            at(b@, pos as int, head(MAJOR_UNSIGNED, kind_code(k))) implies false by {
                            assert(at(b@, pos as int, head(MAJOR_UNSIGNED, kind_code(k))));
                        }
                    }
                    None
                },
            },
            None => None,
        }
    }
}

} // verus!
