//! The canonical CBOR items this ledger writes: heads in their shortest
//! form, unsigned integers, byte strings, text strings and tags.
use crate::bytes::{
    be_bytes, be_nat, lemma_be_bytes_len, lemma_be_nat_bound, lemma_be_nat_of_bytes,
    lemma_bytes_of_be_nat, lemma_pow256_small, push_be, read_be,
};
use vstd::prelude::*;
use vstd::string::StringSliceAdditionalSpecFns;
use vstd::utf8::{
    decode_utf8, decode_utf8_encode_utf8, encode_utf8, encode_utf8_decode_utf8,
    encode_utf8_valid_utf8, valid_utf8,
};

verus! {

pub const MAJOR_UNSIGNED: u8 = 0;

pub const MAJOR_BYTES: u8 = 2;

pub const MAJOR_TEXT: u8 = 3;

pub const MAJOR_ARRAY: u8 = 4;

pub const MAJOR_MAP: u8 = 5;

pub const MAJOR_TAG: u8 = 6;

/// The low five bits of the first byte of a head carrying `n`.
pub open spec fn head_info(n: u64) -> nat {
    if n < 24 {
        n as nat
    } else if n < 0x100 {
        24
    } else if n < 0x10000 {
        25
    } else if n < 0x1_0000_0000 {
        26
    } else {
        27
    }
}

/// How many bytes follow the first byte of a head carrying `n`.
pub open spec fn head_width(n: u64) -> nat {
    if n < 24 {
        0
    } else if n < 0x100 {
        1
    } else if n < 0x10000 {
        2
    } else if n < 0x1_0000_0000 {
        4
    } else {
        8
    }
}

/// The shortest head of major type `major` with argument `n`.
pub open spec fn head(major: u8, n: u64) -> Seq<u8> {
    seq![(major as nat * 32 + head_info(n)) as u8] + be_bytes(n as nat, head_width(n))
}

/// `b` holds `s` starting at `pos`.
pub open spec fn at(b: Seq<u8>, pos: int, s: Seq<u8>) -> bool {
    0 <= pos && pos + s.len() <= b.len() && b.subrange(pos, pos + s.len()) == s
}

pub proof fn lemma_at_concat(b: Seq<u8>, pos: int, x: Seq<u8>, y: Seq<u8>)
    ensures
        at(b, pos, x + y) <==> (at(b, pos, x) && at(b, pos + x.len(), y)),
{
    if at(b, pos, x + y) {
        let w = b.subrange(pos, pos + x.len() + y.len());
        assert(w =~= x + y);
        assert(b.subrange(pos, pos + x.len()) =~= w.subrange(0, x.len() as int));
        assert(w.subrange(0, x.len() as int) =~= x);
        assert(b.subrange(pos + x.len(), pos + x.len() + y.len()) =~= w.subrange(
            x.len() as int,
            (x.len() + y.len()) as int,
        ));
        assert(w.subrange(x.len() as int, (x.len() + y.len()) as int) =~= y);
    }
    if at(b, pos, x) && at(b, pos + x.len(), y) {
        assert(b.subrange(pos, pos + (x + y).len()) =~= x + y);
    }
}

pub proof fn lemma_head_len(major: u8, n: u64)
    ensures
        head(major, n).len() == 1 + head_width(n),
        head(major, n).len() <= 9,
{
    lemma_be_bytes_len(n as nat, head_width(n));
}

/// Writes the shortest head of major type `major` with argument `n`.
pub fn write_head(major: u8, n: u64, out: &mut Vec<u8>)
    requires
        major < 8,
    ensures
        final(out)@ == old(out)@ + head(major, n),
{
    let m: u8 = major * 32;
    let ghost before = out@;
    if n < 24 {
        out.push(m + n as u8);
        push_be(n, 0, out);
    } else if n < 0x100 {
        out.push(m + 24);
        push_be(n, 1, out);
    } else if n < 0x10000 {
        out.push(m + 25);
        push_be(n, 2, out);
    } else if n < 0x1_0000_0000 {
        out.push(m + 26);
        push_be(n, 4, out);
    } else {
        out.push(m + 27);
        push_be(n, 8, out);
    }
    assert(out@ =~= before + head(major, n));
}

proof fn lemma_first_byte(m: u8, i: nat)
    requires
        m < 8,
        i < 32,
    ensures
        ((m as nat * 32 + i) as u8) / 32 == m,
        ((m as nat * 32 + i) as u8) % 32 == i,
{
    assert(m as nat * 32 + i < 256);
    assert((m as nat * 32 + i) / 32 == m && (m as nat * 32 + i) % 32 == i) by (nonlinear_arith)
        requires
            i < 32,
    ;
}

proof fn lemma_head_value(m: u8, n: u64)
    requires
        n >= 24,
    ensures
        be_nat(be_bytes(n as nat, head_width(n))) == n,
{
    lemma_pow256_small();
    lemma_be_nat_of_bytes(n as nat, head_width(n));
}

/// Reads the head at `pos`; only the shortest form of each argument is accepted.
pub fn parse_head(b: &Vec<u8>, pos: usize) -> (r: Option<(u8, u64, usize)>)
    ensures
        r matches Some((m, n, e)) ==> m < 8 && e == pos + head(m, n).len() && at(
            b@,
            pos as int,
            head(m, n),
        ),
        forall|m: u8, n: u64|
            m < 8 && #[trigger] at(b@, pos as int, head(m, n)) ==> r == Some(
                (m, n, (pos + head(m, n).len()) as usize),
            ),
{
    if pos >= b.len() {
        proof {
            assert forall|m: u8, n: u64| m < 8 && #[trigger] at(b@, pos as int, head(m, n)) implies false by {
                lemma_head_len(m, n);
            }
        }
        return None;
    }
    let fb = b[pos];
    let major = fb / 32;
    let info = fb % 32;
    let width: usize = if info < 24 {
        0
    } else if info == 24 {
        1
    } else if info == 25 {
        2
    } else if info == 26 {
        4
    } else {
        8
    };
    let r = if info >= 28 || b.len() - pos - 1 < width {
        None
    } else if info < 24 {
        Some((major, info as u64, pos + 1))
    } else {
        let n = read_be(b, pos + 1, width);
        let lower: u64 = if info == 24 {
            24
        } else if info == 25 {
            0x100
        } else if info == 26 {
            0x10000
        } else {
            0x1_0000_0000
        };
        if n < lower {
            None
        } else {
            Some((major, n, pos + 1 + width))
        }
    };
    proof {
        assert(fb == major as nat * 32 + info as nat) by (nonlinear_arith)
            requires
                major == fb / 32,
                info == fb % 32,
        ;
        if let Some((m, n, e)) = r {
            let h = head(m, n);
            lemma_head_len(m, n);
            if width > 0 {
                lemma_pow256_small();
                lemma_be_nat_bound(b@.subrange(pos + 1, pos + 1 + width));
                lemma_bytes_of_be_nat(b@.subrange(pos + 1, pos + 1 + width));
            }
            assert(head_info(n) == info as nat);
            assert(head_width(n) == width as nat);
            assert(b@.subrange(pos as int, e as int) =~= seq![fb] + b@.subrange(
                pos + 1,
                pos + 1 + width,
            ));
            assert(b@.subrange(pos as int, e as int) =~= h);
        }
        assert forall|m: u8, n: u64| m < 8 && #[trigger] at(b@, pos as int, head(m, n)) implies r
            == Some((m, n, (pos + head(m, n).len()) as usize)) by {
            let h = head(m, n);
            lemma_head_len(m, n);
            assert(h[0] == b@[pos as int]);
            lemma_first_byte(m, head_info(n));
            assert(major == m && info as nat == head_info(n));
            lemma_be_bytes_len(n as nat, head_width(n));
            assert(width as nat == head_width(n));
            if n >= 24 {
                assert(b@.subrange(pos + 1, pos + 1 + width) =~= b@.subrange(
                    pos as int,
                    pos + h.len(),
                ).subrange(1, h.len() as int));
                assert(h.subrange(1, h.len() as int) =~= be_bytes(n as nat, head_width(n)));
                assert(b@.subrange(pos + 1, pos + 1 + width) =~= be_bytes(
                    n as nat,
                    head_width(n),
                ));
                lemma_head_value(m, n);
            }
        }
    }
    r
}

/// Reads a head of the given major type at `pos` and returns its argument.
pub fn expect_head(b: &Vec<u8>, pos: usize, major: u8) -> (r: Option<(u64, usize)>)
    requires
        major < 8,
    ensures
        r matches Some((n, e)) ==> e == pos + head(major, n).len() && at(
            b@,
            pos as int,
            head(major, n),
        ),
        forall|n: u64|
            #[trigger] at(b@, pos as int, head(major, n)) ==> r == Some(
                (n, (pos + head(major, n).len()) as usize),
            ),
{
    match parse_head(b, pos) {
        Some((m, n, e)) => {
            if m == major {
                Some((n, e))
            } else {
                proof {
                    assert forall|k: u64| #[trigger] at(b@, pos as int, head(major, k)) implies false by {
                        assert(at(b@, pos as int, head(major, k)));
                    }
                }
                None
            }
        },
        None => None,
    }
}

/// A string item of major type `major`: its length, then its bytes.
pub open spec fn enc_string(major: u8, s: Seq<u8>) -> Seq<u8> {
    head(major, s.len() as u64) + s
}

/// A byte string.
pub open spec fn enc_bytes(s: Seq<u8>) -> Seq<u8> {
    enc_string(MAJOR_BYTES, s)
}

/// A text string: its UTF-8 form as a string of the text major type.
pub open spec fn enc_text(s: Seq<char>) -> Seq<u8> {
    enc_string(MAJOR_TEXT, encode_utf8(s))
}

/// Appends the bytes of `s` to `out`.
fn push_all(s: &[u8], out: &mut Vec<u8>)
    ensures
        final(out)@ == old(out)@ + s@,
{
    let ghost before = out@;
    let mut i: usize = 0;
    while i < s.len()
        invariant
            i <= s@.len(),
            out@ == before + s@.subrange(0, i as int),
        decreases s@.len() - i,
    {
        out.push(s[i]);
        i = i + 1;
        assert(out@ =~= before + s@.subrange(0, i as int));
    }
    assert(s@.subrange(0, i as int) =~= s@);
}

fn write_string(major: u8, s: &[u8], out: &mut Vec<u8>)
    requires
        major < 8,
    ensures
        final(out)@ == old(out)@ + enc_string(major, s@),
{
    let ghost before = out@;
    write_head(major, s.len() as u64, out);
    push_all(s, out);
    assert(out@ =~= before + enc_string(major, s@));
}

pub fn write_bytes(s: &[u8], out: &mut Vec<u8>)
    ensures
        final(out)@ == old(out)@ + enc_bytes(s@),
{
    write_string(MAJOR_BYTES, s, out);
}

pub fn write_text(s: &String, out: &mut Vec<u8>)
    ensures
        final(out)@ == old(out)@ + enc_text(s@),
{
    let b = s.as_str().as_bytes();
    write_string(MAJOR_TEXT, b, out);
}

/// Copies `b[lo..hi]` into a new vector.
fn copy_range(b: &Vec<u8>, lo: usize, hi: usize) -> (r: Vec<u8>)
    requires
        lo <= hi <= b@.len(),
    ensures
        r@ == b@.subrange(lo as int, hi as int),
{
    let mut r: Vec<u8> = Vec::new();
    let mut i: usize = lo;
    while i < hi
        invariant
            lo <= i <= hi <= b@.len(),
            r@ == b@.subrange(lo as int, i as int),
        decreases hi - i,
    {
        r.push(b[i]);
        i = i + 1;
        assert(r@ =~= b@.subrange(lo as int, i as int));
    }
    r
}

/// Reads a string item of major type `major` at `pos`.
fn parse_string(b: &Vec<u8>, pos: usize, major: u8) -> (r: Option<(Vec<u8>, usize)>)
    requires
        major < 8,
    ensures
        r matches Some((v, e)) ==> e == pos + enc_string(major, v@).len() && at(
            b@,
            pos as int,
            enc_string(major, v@),
        ),
        forall|s: Seq<u8>| #[trigger]
            at(b@, pos as int, enc_string(major, s)) ==> r is Some && r.unwrap().0@ == s,
{
    let blen = b.len();
    match expect_head(b, pos, major) {
        None => {
            proof {
                assert forall|s: Seq<u8>| #[trigger] at(b@, pos as int, enc_string(major, s)) implies false by {
                    lemma_at_concat(b@, pos as int, head(major, s.len() as u64), s);
                }
            }
            None
        },
        Some((n, e)) => {
            proof {
                assert forall|s: Seq<u8>| #[trigger] at(b@, pos as int, enc_string(major, s)) implies n
                    == s.len() && e + s.len() <= blen && b@.subrange(e as int, e + s.len()) == s by {
                    lemma_at_concat(b@, pos as int, head(major, s.len() as u64), s);
                }
            }
            if n as usize as u64 == n && e <= blen && n as usize <= blen - e {
                let v = copy_range(b, e, e + n as usize);
                proof {
                    lemma_at_concat(b@, pos as int, head(major, n), v@);
                    assert(v@.len() == n);
                }
                Some((v, e + n as usize))
            } else {
                None
            }
        },
    }
}

/// Reads a byte string at `pos`.
pub fn parse_bytes(b: &Vec<u8>, pos: usize) -> (r: Option<(Vec<u8>, usize)>)
    ensures
        r matches Some((v, e)) ==> e == pos + enc_bytes(v@).len() && at(
            b@,
            pos as int,
            enc_bytes(v@),
        ),
        forall|s: Seq<u8>| #[trigger]
            at(b@, pos as int, enc_bytes(s)) ==> r is Some && r.unwrap().0@ == s,
{
    parse_string(b, pos, MAJOR_BYTES)
}

/// Relies on `String::from_utf8`: it succeeds exactly on valid UTF-8, and the
/// string then holds the characters those bytes encode.
#[verifier::external_body]
fn string_from_utf8(v: Vec<u8>) -> (r: Option<String>)
    ensures
        r is Some <==> valid_utf8(v@),
        r matches Some(s) ==> s@ == decode_utf8(v@),
{
    String::from_utf8(v).ok()
}

/// Reads a text string at `pos`.
pub fn parse_text(b: &Vec<u8>, pos: usize) -> (r: Option<(String, usize)>)
    ensures
        r matches Some((v, e)) ==> e == pos + enc_text(v@).len() && at(
            b@,
            pos as int,
            enc_text(v@),
        ),
        forall|s: Seq<char>| #[trigger]
            at(b@, pos as int, enc_text(s)) ==> r is Some && r.unwrap().0@ == s,
{
    let r = match parse_string(b, pos, MAJOR_TEXT) {
        None => None,
        Some((v, e)) => {
            let ghost bytes = v@;
            match string_from_utf8(v) {
                None => None,
                Some(t) => {
                    proof {
                        decode_utf8_encode_utf8(bytes);
                    }
                    Some((t, e))
                },
            }
        },
    };
    proof {
        assert forall|s: Seq<char>| #[trigger] at(b@, pos as int, enc_text(s)) implies r is Some && r.unwrap().0@ == s by {
            encode_utf8_valid_utf8(s);
            encode_utf8_decode_utf8(s);
            assert(at(b@, pos as int, enc_string(MAJOR_TEXT, encode_utf8(s))));
        }
    }
    r
}

} // verus!
