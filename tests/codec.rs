use many_ledger::list::VecOrSingle;
use many_ledger::transaction::{Transaction, TransactionContent};
use many_ledger::types::{Address, Timestamp, TokenAmount, TransactionId, TransactionKind};

fn sample() -> Transaction {
    Transaction::mint(
        TransactionId(1),
        Timestamp(5),
        Address::new(vec![0]),
        "FBT".to_string(),
        TokenAmount::from_u64(7),
    )
}

const SAMPLE_BYTES: [u8; 22] = [
    0xa3, 0x00, 0x01, 0x01, 0xc1, 0x05, 0x02, 0x84, 0x01, 0xd9, 0x27, 0x10, 0x41, 0x00, 0x63, b'F',
    b'B', b'T', 0xc2, 0x41, 0x07, 0x00,
];

#[test]
fn transaction_has_exact_bytes() {
    let bytes = sample().encode();
    assert_eq!(bytes, SAMPLE_BYTES[..21].to_vec());
}

#[test]
fn transaction_round_trip() {
    let t = Transaction::send(
        TransactionId((7u64 << 32) + 3),
        Timestamp(1_700_000_000),
        Address::new(vec![1; 29]),
        Address::new(vec![1, 2, 3]),
        "ünïcode".to_string(),
        TokenAmount::from_bytes(vec![0, 0, 1, 2, 3, 4, 5, 6, 7, 8, 9, 10, 11]),
    );
    let bytes = t.encode();
    let back = Transaction::decode(&bytes).unwrap();
    assert_eq!(back.encode(), bytes);
    assert_eq!(back.id, t.id);
    assert_eq!(back.time, t.time);
    assert!(back.kind() == TransactionKind::Send);
    assert_eq!(back.symbol(), "ünïcode");
    match &back.content {
        TransactionContent::Send { from, to, amount, .. } => {
            assert_eq!(from.bytes, vec![1; 29]);
            assert_eq!(to.bytes, vec![1, 2, 3]);
            assert_eq!(amount.to_vec(), vec![1, 2, 3, 4, 5, 6, 7, 8, 9, 10, 11]);
        }
        _ => panic!("expected a send"),
    }
    let burn = Transaction::burn(
        TransactionId(2),
        Timestamp(0),
        Address::new(vec![]),
        String::new(),
        TokenAmount::zero(),
    );
    let b = burn.encode();
    assert_eq!(Transaction::decode(&b).unwrap().encode(), b);
}

#[test]
fn transaction_decode_errors() {
    let good = SAMPLE_BYTES[..21].to_vec();
    assert!(Transaction::decode(&good).is_ok());
    // trailing byte
    assert!(Transaction::decode(&SAMPLE_BYTES.to_vec()).is_err());
    // unknown kind
    let mut bad = good.clone();
    bad[8] = 0x03;
    assert!(Transaction::decode(&bad).is_err());
    // array length that does not match the kind
    let mut bad = good.clone();
    bad[7] = 0x85;
    assert!(Transaction::decode(&bad).is_err());
    // wrong amount tag
    let mut bad = good.clone();
    bad[18] = 0xc3;
    assert!(Transaction::decode(&bad).is_err());
    // keys out of order
    let mut bad = good.clone();
    bad[1] = 0x01;
    assert!(Transaction::decode(&bad).is_err());
    // a head that is not in its shortest form
    let mut bad = vec![0xa3, 0x00, 0x18, 0x01];
    bad.extend_from_slice(&good[3..]);
    assert!(Transaction::decode(&bad).is_err());
    assert!(Transaction::decode(&vec![]).is_err());
}

#[test]
fn token_amount_encoding() {
    assert_eq!(TokenAmount::from_u64(1000).encode(), vec![0xc2, 0x42, 0x03, 0xe8]);
    assert_eq!(TokenAmount::zero().encode(), vec![0xc2, 0x41, 0x00]);
    let a = TokenAmount::decode(&vec![0xc2, 0x42, 0x03, 0xe8]).unwrap();
    assert_eq!(a.to_vec(), vec![0x03, 0xe8]);
    let padded = TokenAmount::decode(&vec![0xc2, 0x42, 0x00, 0x07]).unwrap();
    assert_eq!(padded.to_vec(), vec![0x07]);
    assert_eq!(padded.encode(), vec![0xc2, 0x41, 0x07]);
    assert!(TokenAmount::decode(&vec![0xc2, 0x40]).unwrap().is_zero());
    assert!(TokenAmount::decode(&vec![0xc2, 0x41]).is_none());
    assert!(TokenAmount::decode(&vec![0xc2, 0x41, 0x07, 0x00]).is_none());
    assert!(TokenAmount::decode(&vec![0xc3, 0x41, 0x07]).is_none());
    let big = TokenAmount::from_bytes(vec![0xff; 40]);
    let back = TokenAmount::decode(&big.encode()).unwrap();
    assert!(back.same(&big));
}

#[test]
fn token_amount_arithmetic() {
    let mut a = TokenAmount::from_u64(10);
    a.sub_assign(TokenAmount::from_u64(25));
    assert!(a.is_zero());
    assert_eq!(a.to_vec(), vec![0]);
    let mut b = TokenAmount::from_u64(u64::MAX);
    b.add_assign(TokenAmount::from_u64(1));
    assert_eq!(b.to_vec(), vec![1, 0, 0, 0, 0, 0, 0, 0, 0]);
    b.sub_assign(TokenAmount::from_u64(2));
    assert_eq!(b.to_vec(), vec![0xff; 8].iter().enumerate().map(|(i, x)| if i == 7 { 0xfe } else { *x }).collect::<Vec<u8>>());
    assert!(TokenAmount::from_u64(3).le(&TokenAmount::from_u64(3)));
    assert!(!TokenAmount::from_u64(4).le(&TokenAmount::from_u64(3)));
    assert!(TokenAmount::from_bytes(vec![0, 0, 5]).same(&TokenAmount::from_u64(5)));
    assert!(!TokenAmount::from_u64(5).is_zero());
}

#[test]
fn transaction_id_bytes_are_big_endian() {
    assert_eq!(TransactionId(0x0102).to_vec(), vec![0, 0, 0, 0, 0, 0, 1, 2]);
}

#[test]
fn transaction_accessors() {
    let t = sample();
    assert!(t.kind() == TransactionKind::Mint);
    assert!(t.is_about(&Address::new(vec![0])));
    assert!(!t.is_about(&Address::new(vec![1])));
    assert_eq!(TransactionKind::Burn.code(), 2);
    assert!(TransactionKind::from_code(3).is_none());
}

#[test]
fn kind_lists_encode_single_elements_bare() {
    let one = VecOrSingle::from_vec(vec![TransactionKind::Burn]);
    assert_eq!(one.encode(), vec![0x02]);
    let two = VecOrSingle::from_vec(vec![TransactionKind::Send, TransactionKind::Mint]);
    assert_eq!(two.encode(), vec![0x82, 0x00, 0x01]);
    let none: VecOrSingle<TransactionKind> = VecOrSingle::from_vec(vec![]);
    assert_eq!(none.encode(), vec![0x80]);
    let back = VecOrSingle::<TransactionKind>::decode(&vec![0x82, 0x00, 0x01]).unwrap().into_vec();
    assert!(back == vec![TransactionKind::Send, TransactionKind::Mint]);
    let single = VecOrSingle::<TransactionKind>::decode(&vec![0x01]).unwrap().into_vec();
    assert!(single == vec![TransactionKind::Mint]);
    let one_in_array = VecOrSingle::<TransactionKind>::decode(&vec![0x81, 0x02]).unwrap().into_vec();
    assert!(one_in_array == vec![TransactionKind::Burn]);
    assert!(VecOrSingle::<TransactionKind>::decode(&vec![0x03]).is_none());
    assert!(VecOrSingle::<TransactionKind>::decode(&vec![0x82, 0x00]).is_none());
}
