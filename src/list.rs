//! Listing logged transactions: an ordered scan over an id range, filtered
//! by account, kind, symbol and date, stopping after a count.
use crate::error::LedgerError;
use crate::module::{LedgerModuleImpl, MAXIMUM_TRANSACTION_COUNT};
use crate::transaction::{
    content_is_about, content_kind, content_symbol, enc_transaction, Transaction,
    TransactionModel,
};
use crate::cbor::{at, expect_head, head, lemma_at_concat, write_head, MAJOR_ARRAY, MAJOR_UNSIGNED};
use crate::types::{kind_code, Address, TransactionKind};
use vstd::prelude::*;

verus! {

/// One element standing for a list of one; otherwise a list.
#[derive(Debug)]
pub struct VecOrSingle<T>(pub Vec<T>);

impl<T> VecOrSingle<T> {
    pub fn from_vec(v: Vec<T>) -> (r: VecOrSingle<T>)
        ensures
            r.0@ == v@,
    {
        VecOrSingle(v)
    }

    pub fn into_vec(self) -> (r: Vec<T>)
        ensures
            r@ == self.0@,
    {
        self.0
    }
}

/// Kinds one after the other.
pub open spec fn enc_kind_items(ks: Seq<TransactionKind>) -> Seq<u8>
    decreases ks.len(),
{
    if ks.len() == 0 {
        Seq::empty()
    } else {
        enc_kind_items(ks.drop_last()) + head(MAJOR_UNSIGNED, kind_code(ks.last()))
    }
}

/// A list of kinds as an array.
pub open spec fn enc_kind_array(ks: Seq<TransactionKind>) -> Seq<u8> {
    head(MAJOR_ARRAY, ks.len() as u64) + enc_kind_items(ks)
}

/// A list of kinds: a single kind stands alone, any other list is an array.
pub open spec fn enc_kinds(ks: Seq<TransactionKind>) -> Seq<u8> {
    if ks.len() == 1 {
        head(MAJOR_UNSIGNED, kind_code(ks[0]))
    } else {
        enc_kind_array(ks)
    }
}

impl VecOrSingle<TransactionKind> {
    pub fn encode(&self) -> (r: Vec<u8>)
        ensures
            r@ == enc_kinds(self.0@),
    {
        let mut out: Vec<u8> = Vec::new();
        if self.0.len() == 1 {
            self.0[0].write(&mut out);
            assert(out@ =~= enc_kinds(self.0@));
        } else {
            write_head(MAJOR_ARRAY, self.0.len() as u64, &mut out);
            let ghost h = out@;
            let mut i: usize = 0;
            assert(self.0@.subrange(0, 0) =~= Seq::<TransactionKind>::empty());
            while i < self.0.len()
                invariant
                    i <= self.0@.len(),
                    out@ == h + enc_kind_items(self.0@.subrange(0, i as int)),
                decreases self.0@.len() - i,
            {
                self.0[i].write(&mut out);
                proof {
                    assert(self.0@.subrange(0, i + 1).drop_last() =~= self.0@.subrange(0, i as int));
                }
                i = i + 1;
                assert(out@ =~= h + enc_kind_items(self.0@.subrange(0, i as int)));
            }
            assert(self.0@.subrange(0, i as int) =~= self.0@);
            assert(out@ =~= enc_kinds(self.0@));
        }
        out
    }

    /// Reads a list of kinds that fills `b`: a single kind or an array of them
    /// (an array of one kind included).
    pub fn decode(b: &Vec<u8>) -> (r: Option<VecOrSingle<TransactionKind>>)
        ensures
            r matches Some(v) ==> enc_kinds(v.0@) == b@ || enc_kind_array(v.0@) == b@,
            forall|ks: Seq<TransactionKind>| #[trigger] enc_kinds(ks) == b@ ==> r is Some
                && r.unwrap().0@ == ks,
            forall|ks: Seq<TransactionKind>| #[trigger] enc_kind_array(ks) == b@ ==> r is Some
                && r.unwrap().0@ == ks,
    {
        proof {
            assert(b@.subrange(0, b@.len() as int) =~= b@);
        }
        let blen = b.len();
        let first = TransactionKind::parse(b, 0);
        match first {
            Some((k, e)) => {
                if e == b.len() {
                    let v = VecOrSingle(vec![k]);
                    proof {
                        assert(b@.subrange(0, e as int) =~= b@);
                        assert(v.0@ =~= seq![k]);
                        assert forall|ks: Seq<TransactionKind>| #[trigger] enc_kind_array(ks) == b@ implies false by {
                            lemma_array_first(ks, k);
                        }
                        assert forall|ks: Seq<TransactionKind>| #[trigger] enc_kinds(ks) == b@ implies ks
                            == v.0@ by {
                            lemma_kinds_single(ks, k);
                            if ks.len() == 1 {
                                assert(at(b@, 0, head(MAJOR_UNSIGNED, kind_code(ks[0]))));
                            }
                        }
                    }
                    return Some(v);
                }
                proof {
                    assert forall|ks: Seq<TransactionKind>| #[trigger] enc_kind_array(ks) == b@ implies false by {
                        lemma_array_first(ks, k);
                    }
                    assert forall|ks: Seq<TransactionKind>| #[trigger] enc_kinds(ks) == b@ implies false by {
                        lemma_kinds_single(ks, k);
                        if ks.len() == 1 {
                            assert(at(b@, 0, head(MAJOR_UNSIGNED, kind_code(ks[0]))));
                        }
                    }
                }
                return None;
            },
            None => {},
        }
        let (n, p) = match expect_head(b, 0, MAJOR_ARRAY) {
            Some(x) => x,
            None => {
                proof {
                    assert forall|ks: Seq<TransactionKind>| #[trigger] enc_kind_array(ks) == b@ implies false by {
                        lemma_kind_items_len(ks);
                        assert(ks.len() <= blen);
                        lemma_at_concat(b@, 0, head(MAJOR_ARRAY, ks.len() as u64), enc_kind_items(ks));
                        assert(at(b@, 0, head(MAJOR_ARRAY, ks.len() as u64)));
                    }
                    assert forall|ks: Seq<TransactionKind>| #[trigger] enc_kinds(ks) == b@ implies false by {
                        if ks.len() == 1 {
                            assert(at(b@, 0, head(MAJOR_UNSIGNED, kind_code(ks[0]))));
                        } else {
                            assert(enc_kind_array(ks) == b@);
                        }
                    }
                }
                return None;
            },
        };
        proof {
            assert(first is None);
            assert forall|ks: Seq<TransactionKind>| #[trigger] enc_kinds(ks) == b@ implies enc_kind_array(ks)
                == b@ by {
                if ks.len() == 1 {
                    assert(at(b@, 0, head(MAJOR_UNSIGNED, kind_code(ks[0]))));
                }
            }
            assert forall|ks: Seq<TransactionKind>| #[trigger] enc_kind_array(ks) == b@ implies ks.len()
                == n by {
                lemma_kind_items_len(ks);
                assert(ks.len() <= blen);
                lemma_at_concat(b@, 0, head(MAJOR_ARRAY, ks.len() as u64), enc_kind_items(ks));
                assert(at(b@, 0, head(MAJOR_ARRAY, ks.len() as u64)));
            }
            assert forall|ks: Seq<TransactionKind>| #[trigger] enc_kind_array(ks) == b@ implies at(b@, p as int, enc_kind_items(ks)) by {
                lemma_at_concat(b@, 0, head(MAJOR_ARRAY, ks.len() as u64), enc_kind_items(ks));
            }
            assert(Seq::<TransactionKind>::empty() =~= Seq::<TransactionKind>::empty().subrange(0, 0));
        }
        let mut out: Vec<TransactionKind> = Vec::new();
        let mut pos = p;
        let mut i: u64 = 0;
        while i < n
            invariant
                i <= n,
                out@.len() == i,
                p <= pos <= b@.len(),
                at(b@, 0, head(MAJOR_ARRAY, n)),
                p == head(MAJOR_ARRAY, n).len(),
                b@.subrange(p as int, pos as int) == enc_kind_items(out@),
                forall|ks: Seq<TransactionKind>| #[trigger]
                    enc_kinds(ks) == b@ ==> enc_kind_array(ks) == b@,
                forall|ks: Seq<TransactionKind>| #[trigger]
                    enc_kind_array(ks) == b@ ==> ks.len() == n && at(
                        b@,
                        p as int,
                        enc_kind_items(ks),
                    ) && out@ == ks.subrange(0, i as int) && pos == p + enc_kind_items(
                        ks.subrange(0, i as int),
                    ).len(),
            decreases n - i,
        {
            proof {
                assert forall|ks: Seq<TransactionKind>| #[trigger] enc_kind_array(ks) == b@ implies at(
                    b@,
                    pos as int,
                    head(MAJOR_UNSIGNED, kind_code(ks[i as int])),
                ) by {
                    let pre = ks.subrange(0, i as int);
                    let mid = ks.subrange(0, i + 1);
                    let post = ks.subrange(i + 1, ks.len() as int);
                    assert(mid.drop_last() =~= pre);
                    lemma_kind_items_concat(mid, post);
                    assert(mid + post =~= ks);
                    lemma_at_concat(b@, p as int, enc_kind_items(mid), enc_kind_items(post));
                    lemma_at_concat(b@, p as int, enc_kind_items(pre), head(MAJOR_UNSIGNED, kind_code(ks[i as int])));
                }
            }
            match TransactionKind::parse(b, pos) {
                Some((k, e)) => {
                    proof {
                        assert(b@.subrange(p as int, e as int) =~= b@.subrange(p as int, pos as int) + b@.subrange(pos as int, e as int));
                        assert(out@.push(k).drop_last() =~= out@);
                        assert forall|ks: Seq<TransactionKind>| #[trigger] enc_kind_array(ks) == b@ implies out@.push(k)
                            == ks.subrange(0, i + 1) && e == p + enc_kind_items(ks.subrange(0, i + 1)).len() by {
                            assert(ks.subrange(0, i + 1).drop_last() =~= ks.subrange(0, i as int));
                            assert(ks.subrange(0, i + 1) =~= ks.subrange(0, i as int).push(ks[i as int]));
                        }
                    }
                    out.push(k);
                    pos = e;
                },
                None => return None,
            }
            i = i + 1;
        }
        proof {
            assert forall|ks: Seq<TransactionKind>| #[trigger] enc_kind_array(ks) == b@ implies pos == b@.len() && out@ == ks by {
                assert(ks.subrange(0, ks.len() as int) =~= ks);
                crate::cbor::lemma_head_len(MAJOR_ARRAY, n);
            }
        }
        if pos != b.len() {
            return None;
        }
        let v = VecOrSingle(out);
        proof {
            assert(b@ =~= head(MAJOR_ARRAY, n) + enc_kind_items(v.0@)) by {
                assert(b@.subrange(0, p as int) == head(MAJOR_ARRAY, n));
                assert(b@ =~= b@.subrange(0, p as int) + b@.subrange(p as int, pos as int));
            }
        }
        Some(v)
    }
}

#[derive(Debug, Clone, Copy, PartialEq, Eq, Structural)]
pub enum SortOrder {
    Ascending,
    Descending,
}

#[derive(Debug, Clone, Copy, PartialEq, Eq, Structural)]
pub enum RangeBound {
    Unbounded,
    Included(u64),
    Excluded(u64),
}

/// A range of ids or of seconds.
#[derive(Debug, Clone, Copy, PartialEq, Eq, Structural)]
pub struct CborRange {
    pub start: RangeBound,
    pub end: RangeBound,
}

pub open spec fn range_contains(r: CborRange, x: u64) -> bool {
    (match r.start {
        RangeBound::Unbounded => true,
        RangeBound::Included(a) => a <= x,
        RangeBound::Excluded(a) => a < x,
    }) && (match r.end {
        RangeBound::Unbounded => true,
        RangeBound::Included(b) => x <= b,
        RangeBound::Excluded(b) => x < b,
    })
}

impl CborRange {
    pub fn contains(&self, x: u64) -> (r: bool)
        ensures
            r == range_contains(*self, x),
    {
        let lo = match self.start {
            RangeBound::Unbounded => true,
            RangeBound::Included(a) => a <= x,
            RangeBound::Excluded(a) => a < x,
        };
        let hi = match self.end {
            RangeBound::Unbounded => true,
            RangeBound::Included(b) => x <= b,
            RangeBound::Excluded(b) => x < b,
        };
        lo && hi
    }
}

#[derive(Debug)]
pub struct TransactionFilter {
    pub account: Option<VecOrSingle<Address>>,
    pub kind: Option<VecOrSingle<TransactionKind>>,
    pub symbol: Option<VecOrSingle<String>>,
    pub id_range: Option<CborRange>,
    pub date_range: Option<CborRange>,
}

pub struct ListArgs {
    pub count: Option<u64>,
    pub order: Option<SortOrder>,
    pub filter: Option<TransactionFilter>,
}

pub struct ListReturns {
    pub nb_transactions: u64,
    pub transactions: Vec<Transaction>,
}

pub open spec fn passes_account(t: TransactionModel, a: Option<VecOrSingle<Address>>) -> bool {
    match a {
        None => true,
        Some(v) => exists|i: int|
            #![trigger v.0@[i]]
            0 <= i < v.0@.len() && content_is_about(t.content, v.0@[i]@),
    }
}

pub open spec fn passes_kind(t: TransactionModel, k: Option<VecOrSingle<TransactionKind>>) -> bool {
    match k {
        None => true,
        Some(v) => exists|i: int| 0 <= i < v.0@.len() && v.0@[i] == content_kind(t.content),
    }
}

pub open spec fn passes_symbol(t: TransactionModel, s: Option<VecOrSingle<String>>) -> bool {
    match s {
        None => true,
        Some(v) => exists|i: int|
            #![trigger v.0@[i]]
            0 <= i < v.0@.len() && v.0@[i]@ == content_symbol(t.content),
    }
}

pub open spec fn passes_date(t: TransactionModel, d: Option<CborRange>) -> bool {
    match d {
        None => true,
        Some(r) => range_contains(r, t.time),
    }
}

pub open spec fn in_id_range(id: u64, f: Option<TransactionFilter>) -> bool {
    match f {
        Some(TransactionFilter { id_range: Some(r), .. }) => range_contains(r, id),
        _ => true,
    }
}

/// Whether a transaction passes every filter that is set.
pub open spec fn passes(t: TransactionModel, f: Option<TransactionFilter>) -> bool {
    match f {
        None => true,
        Some(f) => passes_account(t, f.account) && passes_kind(t, f.kind) && passes_symbol(
            t,
            f.symbol,
        ) && passes_date(t, f.date_range),
    }
}

pub open spec fn decodable(b: Seq<u8>) -> bool {
    exists|t: TransactionModel| enc_transaction(t) == b
}

pub open spec fn decoded(b: Seq<u8>) -> TransactionModel {
    choose|t: TransactionModel| enc_transaction(t) == b
}

/// The transactions a scan of `items` yields: those in the id range that
/// pass the filters, at most `count` of them; nothing if an item reached
/// before that does not decode.
pub open spec fn list_walk(
    items: Seq<(u64, Seq<u8>)>,
    f: Option<TransactionFilter>,
    count: nat,
) -> Option<Seq<TransactionModel>>
    decreases items.len(),
{
    if count == 0 || items.len() == 0 {
        Some(Seq::empty())
    } else if !in_id_range(items[0].0, f) {
        list_walk(items.drop_first(), f, count)
    } else if !decodable(items[0].1) {
        None
    } else if passes(decoded(items[0].1), f) {
        match list_walk(items.drop_first(), f, (count - 1) as nat) {
            Some(rest) => Some(seq![decoded(items[0].1)] + rest),
            None => None,
        }
    } else {
        list_walk(items.drop_first(), f, count)
    }
}

pub open spec fn prepend(
    done: Seq<TransactionModel>,
    rest: Option<Seq<TransactionModel>>,
) -> Option<Seq<TransactionModel>> {
    match rest {
        Some(r) => Some(done + r),
        None => None,
    }
}

/// The log in the order asked for.
pub open spec fn ordered(log: Seq<(u64, Seq<u8>)>, order: Option<SortOrder>) -> Seq<(u64, Seq<u8>)> {
    match order {
        Some(SortOrder::Descending) => Seq::new(log.len(), |i: int| log[log.len() - 1 - i]),
        _ => log,
    }
}

pub open spec fn clamp_count(count: Option<u64>) -> nat {
    match count {
        None => MAXIMUM_TRANSACTION_COUNT as nat,
        Some(c) => if c < MAXIMUM_TRANSACTION_COUNT {
            c as nat
        } else {
            MAXIMUM_TRANSACTION_COUNT as nat
        },
    }
}

proof fn lemma_kind_items_concat(a: Seq<TransactionKind>, c: Seq<TransactionKind>)
    ensures
        enc_kind_items(a + c) == enc_kind_items(a) + enc_kind_items(c),
    decreases c.len(),
{
    if c.len() == 0 {
        assert(a + c =~= a);
        assert(enc_kind_items(a) + enc_kind_items(c) =~= enc_kind_items(a));
    } else {
        lemma_kind_items_concat(a, c.drop_last());
        assert((a + c).drop_last() =~= a + c.drop_last());
        assert(enc_kind_items(a + c) =~= enc_kind_items(a) + enc_kind_items(c));
    }
}

proof fn lemma_kind_items_len(ks: Seq<TransactionKind>)
    ensures
        enc_kind_items(ks).len() >= ks.len(),
    decreases ks.len(),
{
    if ks.len() > 0 {
        lemma_kind_items_len(ks.drop_last());
        crate::cbor::lemma_head_len(MAJOR_UNSIGNED, kind_code(ks.last()));
    }
}

proof fn lemma_array_first(ks: Seq<TransactionKind>, k: TransactionKind)
    ensures
        enc_kind_array(ks)[0] != head(MAJOR_UNSIGNED, kind_code(k))[0],
        enc_kind_array(ks).len() >= 1,
        head(MAJOR_UNSIGNED, kind_code(k)).len() >= 1,
{
    crate::cbor::lemma_head_len(MAJOR_UNSIGNED, kind_code(k));
    crate::cbor::lemma_head_len(MAJOR_ARRAY, ks.len() as u64);
    assert(enc_kind_array(ks)[0] == head(MAJOR_ARRAY, ks.len() as u64)[0]);
}

proof fn lemma_kinds_single(ks: Seq<TransactionKind>, k: TransactionKind)
    ensures
        ks.len() != 1 ==> enc_kinds(ks)[0] != head(MAJOR_UNSIGNED, kind_code(k))[0] || enc_kinds(ks).len() == 0,
{
    crate::cbor::lemma_head_len(MAJOR_UNSIGNED, kind_code(k));
    if ks.len() != 1 {
        crate::cbor::lemma_head_len(MAJOR_ARRAY, ks.len() as u64);
        assert(enc_kinds(ks)[0] == head(MAJOR_ARRAY, ks.len() as u64)[0]);
    }
}

/// Keeps a transaction that names one of the accounts, if any are given.
pub fn filter_account(t: &Transaction, account: &Option<VecOrSingle<Address>>) -> (r: bool)
    ensures
        r == passes_account(t@, *account),
{
    match account {
        None => true,
        Some(v) => {
            let mut i: usize = 0;
            while i < v.0.len()
                invariant
                    i <= v.0@.len(),
                    *account == Some(*v),
                    forall|j: int| 0 <= j < i ==> !content_is_about(t@.content, v.0@[j]@),
                decreases v.0@.len() - i,
            {
                if t.is_about(&v.0[i]) {
                    assert(content_is_about(t@.content, v.0@[i as int]@));
                    assert(content_is_about(t@.content, account->Some_0.0@[i as int]@));
                    return true;
                }
                i = i + 1;
            }
            false
        },
    }
}

/// Keeps a transaction of one of the kinds, if any are given.
pub fn filter_transaction_kind(t: &Transaction, kind: &Option<VecOrSingle<TransactionKind>>) -> (r:
    bool)
    ensures
        r == passes_kind(t@, *kind),
{
    match kind {
        None => true,
        Some(v) => {
            let k = t.kind();
            let mut i: usize = 0;
            while i < v.0.len()
                invariant
                    i <= v.0@.len(),
                    *kind == Some(*v),
                    k == content_kind(t@.content),
                    forall|j: int| 0 <= j < i ==> v.0@[j] != k,
                decreases v.0@.len() - i,
            {
                if v.0[i] == k {
                    assert(kind->Some_0.0@[i as int] == content_kind(t@.content));
                    return true;
                }
                i = i + 1;
            }
            false
        },
    }
}

/// Keeps a transaction in one of the symbols, if any are given.
pub fn filter_symbol(t: &Transaction, symbol: &Option<VecOrSingle<String>>) -> (r: bool)
    ensures
        r == passes_symbol(t@, *symbol),
{
    match symbol {
        None => true,
        Some(v) => {
            let s = t.symbol();
            let mut i: usize = 0;
            while i < v.0.len()
                invariant
                    i <= v.0@.len(),
                    *symbol == Some(*v),
                    s@ == content_symbol(t@.content),
                    forall|j: int| 0 <= j < i ==> v.0@[j]@ != s@,
                decreases v.0@.len() - i,
            {
                if v.0[i] == *s {
                    assert(v.0@[i as int]@ == s@);
                    assert(symbol->Some_0.0@[i as int]@ == content_symbol(t@.content));
                    return true;
                }
                i = i + 1;
            }
            false
        },
    }
}

/// Keeps a transaction whose time lies in the range, if one is given.
pub fn filter_date(t: &Transaction, range: &Option<CborRange>) -> (r: bool)
    ensures
        r == passes_date(t@, *range),
{
    match range {
        None => true,
        Some(r) => r.contains(t.time.0),
    }
}

fn filter_all(t: &Transaction, f: &Option<TransactionFilter>) -> (r: bool)
    ensures
        r == passes(t@, *f),
{
    match f {
        None => true,
        Some(f) => filter_account(t, &f.account) && filter_transaction_kind(t, &f.kind)
            && filter_symbol(t, &f.symbol) && filter_date(t, &f.date_range),
    }
}

fn id_in_range(id: u64, f: &Option<TransactionFilter>) -> (r: bool)
    ensures
        r == in_id_range(id, *f),
{
    match f {
        Some(TransactionFilter { id_range: Some(r), .. }) => r.contains(id),
        _ => true,
    }
}

impl LedgerModuleImpl {
    /// Lists logged transactions in id order (ascending unless asked
    /// otherwise), within the id range, passing the filters, at most
    /// `count` of them and never more than the maximum. A transaction that
    /// does not decode, reached before the list is full, fails the call.
    pub fn list(&self, args: ListArgs) -> (r: Result<ListReturns, LedgerError>)
        requires
            self.wf(),
        ensures
            match list_walk(
                ordered(self.storage_spec().log(), args.order),
                args.filter,
                clamp_count(args.count),
            ) {
                Some(ts) => r is Ok && r->Ok_0.nb_transactions == self.storage_spec().log().len()
                    && r->Ok_0.transactions@.map_values(|t: Transaction| t@) == ts,
                None => r is Err && r->Err_0 is DeserializationError,
            },
    {
        let ListArgs { count, order, filter } = args;
        let count: u64 = match count {
            None => MAXIMUM_TRANSACTION_COUNT,
            Some(c) => if c < MAXIMUM_TRANSACTION_COUNT {
                c
            } else {
                MAXIMUM_TRANSACTION_COUNT
            },
        };
        let descending = match order {
            Some(SortOrder::Descending) => true,
            _ => false,
        };
        let storage = self.storage();
        let nb_transactions = storage.nb_transactions();
        let log = storage.transaction_log();
        let n = log.len();
        let ghost items = ordered(self.storage_spec().log(), order);
        let ghost lv = log@.map_values(|e: crate::storage::StoredTransaction| e@);
        let mut out: Vec<Transaction> = Vec::new();
        let mut i: usize = 0;
        proof {
            assert(lv.len() == n);
            assert(items.len() == n);
            assert(items.subrange(0, n as int) =~= items);
        }
        while i < n && (out.len() as u64) < count
            invariant
                n == log@.len(),
                lv == self.storage_spec().log(),
                lv == log@.map_values(|e: crate::storage::StoredTransaction| e@),
                nb_transactions == lv.len(),
                items == ordered(lv, order),
                items.len() == n,
                i <= n,
                out@.len() <= count,
                count == clamp_count(args.count),
                descending <==> order == Some(SortOrder::Descending),
                filter == args.filter,
                order == args.order,
                list_walk(items, filter, count as nat) == prepend(
                    out@.map_values(|t: Transaction| t@),
                    list_walk(items.subrange(i as int, n as int), filter, (count - out@.len()) as nat),
                ),
            decreases n - i,
        {
            let j = if descending {
                n - 1 - i
            } else {
                i
            };
            let ghost sub = items.subrange(i as int, n as int);
            proof {
                assert(sub[0] == items[i as int]);
                assert(items[i as int] == lv[j as int]);
                assert(sub[0] == lv[j as int]);
                assert(lv[j as int] == log@[j as int]@);
                assert(sub.drop_first() =~= items.subrange(i + 1, n as int));
            }
            let item = &log[j];
            let ghost before = out@.map_values(|t: Transaction| t@);
            let ghost c = (count - out@.len()) as nat;
            proof {
                assert(c > 0);
                assert(sub.len() > 0);
                assert(sub[0] == (item.id, item.bytes@));
            }
            if id_in_range(item.id, &filter) {
                match Transaction::decode(&item.bytes) {
                    Ok(t) => {
                        proof {
                            let b = item.bytes@;
                            assert(enc_transaction(t@) == b);
                            assert(decodable(b));
                            let t0 = decoded(b);
                            assert(enc_transaction(t0) == b);
                        }
                        proof {
                            assert(t@ == decoded(item.bytes@));
                        }
                        if filter_all(&t, &filter) {
                            out.push(t);
                            proof {
                                assert(out@.map_values(|t: Transaction| t@) =~= before.push(
                                    decoded(item.bytes@),
                                ));
                                let rest = list_walk(
                                    items.subrange(i + 1, n as int),
                                    filter,
                                    (count - out@.len()) as nat,
                                );
                                match rest {
                                    Some(x) => {
                                        assert(before + (seq![decoded(item.bytes@)] + x) =~= before.push(
                                            decoded(item.bytes@),
                                        ) + x);
                                    },
                                    None => {},
                                }
                            }
                        }
                    },
                    Err(_) => {
                        proof {
                            let b = item.bytes@;
                            if decodable(b) {
                                let t0 = choose|t: TransactionModel| enc_transaction(t) == b;
                                assert(enc_transaction(t0) == b);
                            }
                            assert(list_walk(sub, filter, c) is None);
                        }
                        return Err(LedgerError::DeserializationError);
                    },
                }
            }
            i = i + 1;
        }
        proof {
            let rest = items.subrange(i as int, n as int);
            if i == n {
                assert(rest.len() == 0);
            }
            assert(out@.map_values(|t: Transaction| t@) + Seq::<TransactionModel>::empty() =~= out@.map_values(
                |t: Transaction| t@,
            ));
        }
        Ok(ListReturns { nb_transactions, transactions: out })
    }
}

} // verus!
