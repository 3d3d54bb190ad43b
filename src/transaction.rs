//! Transactions of the ledger and their canonical encoding.
use crate::cbor::{
    at, enc_text, expect_head, head, lemma_at_concat, parse_text, write_head,
    write_text, MAJOR_ARRAY, MAJOR_MAP, MAJOR_UNSIGNED,
};
use crate::types::{
    enc_address, enc_amount, enc_timestamp, kind_code, Address, Timestamp, TokenAmount,
    TransactionId, TransactionKind,
};
use vstd::prelude::*;

verus! {

/// What a transaction's content holds, as plain values.
pub ghost enum ContentModel {
    Send { from: Seq<u8>, to: Seq<u8>, symbol: Seq<char>, amount: nat },
    Mint { account: Seq<u8>, symbol: Seq<char>, amount: nat },
    Burn { account: Seq<u8>, symbol: Seq<char>, amount: nat },
}

/// What a transaction holds, as plain values.
pub ghost struct TransactionModel {
    pub id: u64,
    pub time: u64,
    pub content: ContentModel,
}

#[derive(Debug)]
pub enum TransactionContent {
    Send { from: Address, to: Address, symbol: String, amount: TokenAmount },
    Mint { account: Address, symbol: String, amount: TokenAmount },
    Burn { account: Address, symbol: String, amount: TokenAmount },
}

impl View for TransactionContent {
    type V = ContentModel;

    open spec fn view(&self) -> ContentModel {
        match self {
            TransactionContent::Send { from, to, symbol, amount } => ContentModel::Send {
                from: from@,
                to: to@,
                symbol: symbol@,
                amount: amount@,
            },
            TransactionContent::Mint { account, symbol, amount } => ContentModel::Mint {
                account: account@,
                symbol: symbol@,
                amount: amount@,
            },
            TransactionContent::Burn { account, symbol, amount } => ContentModel::Burn {
                account: account@,
                symbol: symbol@,
                amount: amount@,
            },
        }
    }
}

#[derive(Debug)]
pub struct Transaction {
    pub id: TransactionId,
    pub time: Timestamp,
    pub content: TransactionContent,
}

impl View for Transaction {
    type V = TransactionModel;

    open spec fn view(&self) -> TransactionModel {
        TransactionModel { id: self.id.0, time: self.time.0, content: self.content@ }
    }
}

/// The kind of a content.
pub open spec fn content_kind(c: ContentModel) -> TransactionKind {
    match c {
        ContentModel::Send { .. } => TransactionKind::Send,
        ContentModel::Mint { .. } => TransactionKind::Mint,
        ContentModel::Burn { .. } => TransactionKind::Burn,
    }
}

/// The symbol a content moves.
pub open spec fn content_symbol(c: ContentModel) -> Seq<char> {
    match c {
        ContentModel::Send { symbol, .. } => symbol,
        ContentModel::Mint { symbol, .. } => symbol,
        ContentModel::Burn { symbol, .. } => symbol,
    }
}

/// Whether a content names the account `id`.
pub open spec fn content_is_about(c: ContentModel, id: Seq<u8>) -> bool {
    match c {
        ContentModel::Send { from, to, .. } => id == from || id == to,
        ContentModel::Mint { account, .. } => id == account,
        ContentModel::Burn { account, .. } => id == account,
    }
}

/// An account, a symbol and an amount, one after the other.
pub open spec fn enc_fields(account: Seq<u8>, symbol: Seq<char>, amount: nat) -> Seq<u8> {
    enc_address(account) + (enc_text(symbol) + enc_amount(amount))
}

/// The fields of a content after its kind.
pub open spec fn enc_content_body(c: ContentModel) -> Seq<u8> {
    match c {
        ContentModel::Send { from, to, symbol, amount } => enc_address(from) + enc_fields(
            to,
            symbol,
            amount,
        ),
        ContentModel::Mint { account, symbol, amount } => enc_fields(account, symbol, amount),
        ContentModel::Burn { account, symbol, amount } => enc_fields(account, symbol, amount),
    }
}

/// How many items the array of a content holds.
pub open spec fn content_len(c: ContentModel) -> u64 {
    match c {
        ContentModel::Send { .. } => 5,
        _ => 4,
    }
}

/// A content: an array of its kind, then its fields in declaration order.
pub open spec fn enc_content(c: ContentModel) -> Seq<u8> {
    head(MAJOR_ARRAY, content_len(c)) + (head(MAJOR_UNSIGNED, kind_code(content_kind(c)))
        + enc_content_body(c))
}

/// A transaction: a map with the keys `0`, `1` and `2` in order, holding its
/// id, time and content.
pub open spec fn enc_transaction(t: TransactionModel) -> Seq<u8> {
    head(MAJOR_MAP, 3) + (head(MAJOR_UNSIGNED, 0) + (head(MAJOR_UNSIGNED, t.id) + (head(
        MAJOR_UNSIGNED,
        1,
    ) + (enc_timestamp(t.time) + (head(MAJOR_UNSIGNED, 2) + enc_content(t.content))))))
}

/// Reads a head of the given major type whose argument must be `value`.
fn expect_value(b: &Vec<u8>, pos: usize, major: u8, value: u64) -> (r: Option<usize>)
    requires
        major < 8,
    ensures
        r matches Some(e) ==> e == pos + head(major, value).len() && at(
            b@,
            pos as int,
            head(major, value),
        ),
        at(b@, pos as int, head(major, value)) ==> r == Some(
            (pos + head(major, value).len()) as usize,
        ),
{
    match expect_head(b, pos, major) {
        Some((n, e)) => {
            if n == value {
                Some(e)
            } else {
                None
            }
        },
        None => None,
    }
}

fn write_fields(account: &Address, symbol: &String, amount: &TokenAmount, out: &mut Vec<u8>)
    ensures
        final(out)@ == old(out)@ + enc_fields(account@, symbol@, amount@),
{
    let ghost before = out@;
    account.write(out);
    write_text(symbol, out);
    amount.write(out);
    assert(out@ =~= before + enc_fields(account@, symbol@, amount@));
}

fn parse_fields(b: &Vec<u8>, pos: usize) -> (r: Option<(Address, String, TokenAmount, usize)>)
    ensures
        r matches Some((a, s, v, e)) ==> e == pos + enc_fields(a@, s@, v@).len() && at(
            b@,
            pos as int,
            enc_fields(a@, s@, v@),
        ),
        forall|a: Seq<u8>, s: Seq<char>, v: nat| #[trigger]
            at(b@, pos as int, enc_fields(a, s, v)) ==> r is Some && r.unwrap().0@ == a
                && r.unwrap().1@ == s && r.unwrap().2@ == v,
{
    proof {
        assert forall|a: Seq<u8>, s: Seq<char>, v: nat| #[trigger]
            at(b@, pos as int, enc_fields(a, s, v)) implies at(b@, pos as int, enc_address(a))
            && at(b@, pos + enc_address(a).len(), enc_text(s)) && at(
            b@,
            pos + enc_address(a).len() + enc_text(s).len(),
            enc_amount(v),
        ) by {
            lemma_at_concat(b@, pos as int, enc_address(a), enc_text(s) + enc_amount(v));
            lemma_at_concat(b@, pos + enc_address(a).len(), enc_text(s), enc_amount(v));
        }
    }
    let (a, pos1) = match Address::parse(b, pos) {
        Some(x) => x,
        None => return None,
    };
    let (s, pos2) = match parse_text(b, pos1) {
        Some(x) => x,
        None => return None,
    };
    let (v, pos3) = match TokenAmount::parse(b, pos2) {
        Some(x) => x,
        None => return None,
    };
    proof {
        lemma_at_concat(b@, pos1 as int, enc_text(s@), enc_amount(v@));
        lemma_at_concat(b@, pos as int, enc_address(a@), enc_text(s@) + enc_amount(v@));
    }
    Some((a, s, v, pos3))
}

impl TransactionContent {
    pub fn write(&self, out: &mut Vec<u8>)
        ensures
            final(out)@ == old(out)@ + enc_content(self@),
    {
        let ghost before = out@;
        match self {
            TransactionContent::Send { from, to, symbol, amount } => {
                write_head(MAJOR_ARRAY, 5, out);
                write_head(MAJOR_UNSIGNED, 0, out);
                from.write(out);
                write_fields(to, symbol, amount, out);
            },
            TransactionContent::Mint { account, symbol, amount } => {
                write_head(MAJOR_ARRAY, 4, out);
                write_head(MAJOR_UNSIGNED, 1, out);
                write_fields(account, symbol, amount, out);
            },
            TransactionContent::Burn { account, symbol, amount } => {
                write_head(MAJOR_ARRAY, 4, out);
                write_head(MAJOR_UNSIGNED, 2, out);
                write_fields(account, symbol, amount, out);
            },
        }
        assert(out@ =~= before + enc_content(self@));
    }

    /// Reads a content; the array must hold exactly the fields of its kind.
    pub fn parse(b: &Vec<u8>, pos: usize) -> (r: Option<(TransactionContent, usize)>)
        ensures
            r matches Some((c, e)) ==> e == pos + enc_content(c@).len() && at(
                b@,
                pos as int,
                enc_content(c@),
            ),
            forall|c: ContentModel| #[trigger]
                at(b@, pos as int, enc_content(c)) ==> r is Some && r.unwrap().0@ == c,
    {
        proof {
            assert forall|c: ContentModel| #[trigger] at(b@, pos as int, enc_content(c)) implies at(
                b@,
                pos as int,
                head(MAJOR_ARRAY, content_len(c)),
            ) && at(
                b@,
                pos + head(MAJOR_ARRAY, content_len(c)).len(),
                head(MAJOR_UNSIGNED, kind_code(content_kind(c))),
            ) && at(
                b@,
                pos + head(MAJOR_ARRAY, content_len(c)).len() + head(
                    MAJOR_UNSIGNED,
                    kind_code(content_kind(c)),
                ).len(),
                enc_content_body(c),
            ) by {
                let h1 = head(MAJOR_ARRAY, content_len(c));
                let h2 = head(MAJOR_UNSIGNED, kind_code(content_kind(c)));
                lemma_at_concat(b@, pos as int, h1, h2 + enc_content_body(c));
                lemma_at_concat(b@, pos + h1.len(), h2, enc_content_body(c));
            }
        }
        let (n, pos1) = match expect_head(b, pos, MAJOR_ARRAY) {
            Some(x) => x,
            None => return None,
        };
        let (k, pos2) = match TransactionKind::parse(b, pos1) {
            Some(x) => x,
            None => return None,
        };
        let ghost h1 = head(MAJOR_ARRAY, n);
        let ghost h2 = head(MAJOR_UNSIGNED, kind_code(k));
        match k {
            TransactionKind::Send => {
                if n != 5 {
                    return None;
                }
                proof {
                    assert forall|c: ContentModel| #[trigger]
                        at(b@, pos as int, enc_content(c)) implies c is Send by {}
                    assert forall|f: Seq<u8>, t: Seq<u8>, s: Seq<char>, v: nat| #[trigger]
                        at(b@, pos2 as int, enc_address(f) + enc_fields(t, s, v)) implies at(
                        b@,
                        pos2 as int,
                        enc_address(f),
                    ) && at(b@, pos2 + enc_address(f).len(), enc_fields(t, s, v)) by {
                        lemma_at_concat(b@, pos2 as int, enc_address(f), enc_fields(t, s, v));
                    }
                }
                let (from, pos3) = match Address::parse(b, pos2) {
                    Some(x) => x,
                    None => return None,
                };
                let (to, symbol, amount, e) = match parse_fields(b, pos3) {
                    Some(x) => x,
                    None => return None,
                };
                let c = TransactionContent::Send { from, to, symbol, amount };
                proof {
                    lemma_at_concat(
                        b@,
                        pos2 as int,
                        enc_address(from@),
                        enc_fields(to@, symbol@, amount@),
                    );
                    lemma_at_concat(b@, pos1 as int, h2, enc_content_body(c@));
                    lemma_at_concat(b@, pos as int, h1, h2 + enc_content_body(c@));
                }
                Some((c, e))
            },
            TransactionKind::Mint => {
                if n != 4 {
                    return None;
                }
                let (account, symbol, amount, e) = match parse_fields(b, pos2) {
                    Some(x) => x,
                    None => return None,
                };
                let c = TransactionContent::Mint { account, symbol, amount };
                proof {
                    lemma_at_concat(b@, pos1 as int, h2, enc_content_body(c@));
                    lemma_at_concat(b@, pos as int, h1, h2 + enc_content_body(c@));
                }
                Some((c, e))
            },
            TransactionKind::Burn => {
                if n != 4 {
                    return None;
                }
                let (account, symbol, amount, e) = match parse_fields(b, pos2) {
                    Some(x) => x,
                    None => return None,
                };
                let c = TransactionContent::Burn { account, symbol, amount };
                proof {
                    lemma_at_concat(b@, pos1 as int, h2, enc_content_body(c@));
                    lemma_at_concat(b@, pos as int, h1, h2 + enc_content_body(c@));
                }
                Some((c, e))
            },
        }
    }
}

/// A value could not be read back from bytes.
#[derive(Debug, Clone, Copy, PartialEq, Eq, Structural)]
pub struct DecodeError;

impl Transaction {
    pub fn send(
        id: TransactionId,
        time: Timestamp,
        from: Address,
        to: Address,
        symbol: String,
        amount: TokenAmount,
    ) -> (r: Transaction)
        ensures
            r@ == (TransactionModel {
                id: id.0,
                time: time.0,
                content: ContentModel::Send { from: from@, to: to@, symbol: symbol@, amount: amount@ },
            }),
    {
        Transaction { id, time, content: TransactionContent::Send { from, to, symbol, amount } }
    }

    pub fn mint(
        id: TransactionId,
        time: Timestamp,
        account: Address,
        symbol: String,
        amount: TokenAmount,
    ) -> (r: Transaction)
        ensures
            r@ == (TransactionModel {
                id: id.0,
                time: time.0,
                content: ContentModel::Mint { account: account@, symbol: symbol@, amount: amount@ },
            }),
    {
        Transaction { id, time, content: TransactionContent::Mint { account, symbol, amount } }
    }

    pub fn burn(
        id: TransactionId,
        time: Timestamp,
        account: Address,
        symbol: String,
        amount: TokenAmount,
    ) -> (r: Transaction)
        ensures
            r@ == (TransactionModel {
                id: id.0,
                time: time.0,
                content: ContentModel::Burn { account: account@, symbol: symbol@, amount: amount@ },
            }),
    {
        Transaction { id, time, content: TransactionContent::Burn { account, symbol, amount } }
    }

    pub fn kind(&self) -> (r: TransactionKind)
        ensures
            r == content_kind(self@.content),
    {
        match self.content {
            TransactionContent::Send { .. } => TransactionKind::Send,
            TransactionContent::Mint { .. } => TransactionKind::Mint,
            TransactionContent::Burn { .. } => TransactionKind::Burn,
        }
    }

    pub fn symbol(&self) -> (r: &String)
        ensures
            r@ == content_symbol(self@.content),
    {
        match &self.content {
            TransactionContent::Send { symbol, .. } => symbol,
            TransactionContent::Mint { symbol, .. } => symbol,
            TransactionContent::Burn { symbol, .. } => symbol,
        }
    }

    pub fn is_about(&self, id: &Address) -> (r: bool)
        ensures
            r == content_is_about(self@.content, id@),
    {
        match &self.content {
            TransactionContent::Send { from, to, .. } => id.same(from) || id.same(to),
            TransactionContent::Mint { account, .. } => id.same(account),
            TransactionContent::Burn { account, .. } => id.same(account),
        }
    }

    pub fn write(&self, out: &mut Vec<u8>)
        ensures
            final(out)@ == old(out)@ + enc_transaction(self@),
    {
        let ghost before = out@;
        write_head(MAJOR_MAP, 3, out);
        write_head(MAJOR_UNSIGNED, 0, out);
        write_head(MAJOR_UNSIGNED, self.id.0, out);
        write_head(MAJOR_UNSIGNED, 1, out);
        self.time.write(out);
        write_head(MAJOR_UNSIGNED, 2, out);
        self.content.write(out);
        assert(out@ =~= before + enc_transaction(self@));
    }

    /// Reads a transaction; the keys must come once each, in order.
    pub fn parse(b: &Vec<u8>, pos: usize) -> (r: Option<(Transaction, usize)>)
        ensures
            r matches Some((t, e)) ==> e == pos + enc_transaction(t@).len() && at(
                b@,
                pos as int,
                enc_transaction(t@),
            ),
            forall|t: TransactionModel| #[trigger]
                at(b@, pos as int, enc_transaction(t)) ==> r is Some && r.unwrap().0@ == t,
    {
        let ghost k0 = head(MAJOR_UNSIGNED, 0);
        let ghost k1 = head(MAJOR_UNSIGNED, 1);
        let ghost k2 = head(MAJOR_UNSIGNED, 2);
        let ghost m3 = head(MAJOR_MAP, 3);
        proof {
            assert forall|t: TransactionModel| #[trigger] at(b@, pos as int, enc_transaction(t)) implies {
                let pos1 = pos + m3.len();
                let pos2 = pos1 + k0.len();
                let pos3 = pos2 + head(MAJOR_UNSIGNED, t.id).len();
                let pos4 = pos3 + k1.len();
                let pos5 = pos4 + enc_timestamp(t.time).len();
                let pos6 = pos5 + k2.len();
                at(b@, pos as int, m3) && at(b@, pos1, k0) && at(b@, pos2, head(MAJOR_UNSIGNED, t.id))
                    && at(b@, pos3, k1) && at(b@, pos4, enc_timestamp(t.time)) && at(b@, pos5, k2) && at(
                    b@,
                    pos6,
                    enc_content(t.content),
                )
            } by {
                let hid = head(MAJOR_UNSIGNED, t.id);
                let ts = enc_timestamp(t.time);
                let c = enc_content(t.content);
                let pos1 = pos + m3.len();
                let pos2 = pos1 + k0.len();
                let pos3 = pos2 + hid.len();
                let pos4 = pos3 + k1.len();
                let pos5 = pos4 + ts.len();
                lemma_at_concat(b@, pos as int, m3, k0 + (hid + (k1 + (ts + (k2 + c)))));
                lemma_at_concat(b@, pos1, k0, hid + (k1 + (ts + (k2 + c))));
                lemma_at_concat(b@, pos2, hid, k1 + (ts + (k2 + c)));
                lemma_at_concat(b@, pos3, k1, ts + (k2 + c));
                lemma_at_concat(b@, pos4, ts, k2 + c);
                lemma_at_concat(b@, pos5, k2, c);
            }
        }
        let pos1 = match expect_value(b, pos, MAJOR_MAP, 3) {
            Some(e) => e,
            None => return None,
        };
        let pos2 = match expect_value(b, pos1, MAJOR_UNSIGNED, 0) {
            Some(e) => e,
            None => return None,
        };
        let (id, pos3) = match expect_head(b, pos2, MAJOR_UNSIGNED) {
            Some(x) => x,
            None => return None,
        };
        let pos4 = match expect_value(b, pos3, MAJOR_UNSIGNED, 1) {
            Some(e) => e,
            None => return None,
        };
        let (time, pos5) = match Timestamp::parse(b, pos4) {
            Some(x) => x,
            None => return None,
        };
        let pos6 = match expect_value(b, pos5, MAJOR_UNSIGNED, 2) {
            Some(e) => e,
            None => return None,
        };
        let (content, e) = match TransactionContent::parse(b, pos6) {
            Some(x) => x,
            None => return None,
        };
        let t = Transaction { id: TransactionId(id), time, content };
        proof {
            let hid = head(MAJOR_UNSIGNED, id);
            let ts = enc_timestamp(time.0);
            let c = enc_content(t.content@);
            lemma_at_concat(b@, pos5 as int, k2, c);
            lemma_at_concat(b@, pos4 as int, ts, k2 + c);
            lemma_at_concat(b@, pos3 as int, k1, ts + (k2 + c));
            lemma_at_concat(b@, pos2 as int, hid, k1 + (ts + (k2 + c)));
            lemma_at_concat(b@, pos1 as int, k0, hid + (k1 + (ts + (k2 + c))));
            lemma_at_concat(b@, pos as int, m3, k0 + (hid + (k1 + (ts + (k2 + c)))));
        }
        Some((t, e))
    }

    /// The canonical bytes of the transaction.
    pub fn encode(&self) -> (r: Vec<u8>)
        ensures
            r@ == enc_transaction(self@),
    {
        let mut out: Vec<u8> = Vec::new();
        self.write(&mut out);
        assert(out@ =~= enc_transaction(self@));
        out
    }

    /// Reads a transaction that fills `b` exactly. Whatever `encode` wrote
    /// reads back as the same transaction, and what reads back encodes to
    /// the same bytes.
    pub fn decode(b: &Vec<u8>) -> (r: Result<Transaction, DecodeError>)
        ensures
            r matches Ok(t) ==> enc_transaction(t@) == b@,
            forall|t: TransactionModel| #[trigger]
                enc_transaction(t) == b@ ==> r is Ok && r.unwrap()@ == t,
    {
        proof {
            assert forall|t: TransactionModel| #[trigger] enc_transaction(t) == b@ implies at(
                b@,
                0,
                enc_transaction(t),
            ) by {
                assert(b@.subrange(0, b@.len() as int) =~= b@);
            }
        }
        match Transaction::parse(b, 0) {
            Some((t, e)) => {
                if e == b.len() {
                    assert(b@.subrange(0, e as int) == enc_transaction(t@));
                    assert(b@.subrange(0, e as int) =~= b@);
                    Ok(t)
                } else {
                    Err(DecodeError)
                }
            },
            None => Err(DecodeError),
        }
    }
}

} // verus!
