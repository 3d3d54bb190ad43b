//! The ledger's state: symbols, balances, the transaction log, identity
//! records, the block height and the root hash of the last commit.
use crate::balances::{
    entries_view, get_balance, set_balance, set_entry, supply_in, well_formed, balance_in,
    BalanceEntry,
};
use crate::cbor::{enc_bytes, enc_text, head, write_bytes, write_head, write_text, MAJOR_UNSIGNED};
use crate::error::LedgerError;
use crate::transaction::{enc_transaction, ContentModel, Transaction, TransactionModel};
use crate::types::{enc_address, enc_amount, Address, Timestamp, TokenAmount, TransactionId};
use vstd::prelude::*;

verus! {

/// The number of low bits of a transaction id that count within a block.
pub const HEIGHT_EVENTID_SHIFT: u64 = 32;

/// `1 << HEIGHT_EVENTID_SHIFT`: ids of block `h` start above `h * BLOCK_SPAN`.
pub const BLOCK_SPAN: u64 = 0x1_0000_0000;

pub const FNV_OFFSET: u64 = 0xcbf2_9ce4_8422_2325;

pub const FNV_PRIME: u64 = 0x100_0000_01b3;

/// A registered symbol: its address and its local name.
#[derive(Debug)]
pub struct SymbolEntry {
    pub address: Address,
    pub name: String,
}

impl View for SymbolEntry {
    type V = (Seq<u8>, Seq<char>);

    open spec fn view(&self) -> (Seq<u8>, Seq<char>) {
        (self.address@, self.name@)
    }
}

/// A logged transaction: its id and its canonical bytes.
#[derive(Debug)]
pub struct StoredTransaction {
    pub id: u64,
    pub bytes: Vec<u8>,
}

impl View for StoredTransaction {
    type V = (u64, Seq<u8>);

    open spec fn view(&self) -> (u64, Seq<u8>) {
        (self.id, self.bytes@)
    }
}

/// A stored credential: the recall phrase, the address and the credential id.
#[derive(Debug)]
pub struct IdentityRecord {
    pub phrase: Vec<String>,
    pub address: Address,
    pub cred_id: Vec<u8>,
}

pub open spec fn phrase_view(p: Seq<String>) -> Seq<Seq<char>> {
    p.map_values(|w: String| w@)
}

impl View for IdentityRecord {
    type V = (Seq<Seq<char>>, Seq<u8>, Seq<u8>);

    open spec fn view(&self) -> (Seq<Seq<char>>, Seq<u8>, Seq<u8>) {
        (phrase_view(self.phrase@), self.address@, self.cred_id@)
    }
}

/// What `commit` reports: how many blocks to keep (`0` keeps all) and the root hash.
#[derive(Debug)]
pub struct AbciCommitInfo {
    pub retain_height: u64,
    pub hash: Vec<u8>,
}

pub open spec fn fnv_step(h: u64, b: u8) -> u64 {
    (((h ^ (b as u64)) as nat * FNV_PRIME as nat) % 0x1_0000_0000_0000_0000) as u64
}

/// The 64-bit FNV-1a digest of a byte string.
pub open spec fn fnv(s: Seq<u8>) -> u64
    decreases s.len(),
{
    if s.len() == 0 {
        FNV_OFFSET
    } else {
        fnv_step(fnv(s.drop_last()), s.last())
    }
}

pub open spec fn symbols_bytes(s: Seq<(Seq<u8>, Seq<char>)>) -> Seq<u8>
    decreases s.len(),
{
    if s.len() == 0 {
        Seq::empty()
    } else {
        symbols_bytes(s.drop_last()) + (enc_address(s.last().0) + enc_text(s.last().1))
    }
}

pub open spec fn balances_bytes(s: Seq<(Seq<u8>, Seq<u8>, nat)>) -> Seq<u8>
    decreases s.len(),
{
    if s.len() == 0 {
        Seq::empty()
    } else {
        balances_bytes(s.drop_last()) + (enc_address(s.last().0) + (enc_address(s.last().1)
            + enc_amount(s.last().2)))
    }
}

pub open spec fn log_bytes(s: Seq<(u64, Seq<u8>)>) -> Seq<u8>
    decreases s.len(),
{
    if s.len() == 0 {
        Seq::empty()
    } else {
        log_bytes(s.drop_last()) + (head(MAJOR_UNSIGNED, s.last().0) + enc_bytes(s.last().1))
    }
}

pub open spec fn words_bytes(p: Seq<Seq<char>>) -> Seq<u8>
    decreases p.len(),
{
    if p.len() == 0 {
        Seq::empty()
    } else {
        words_bytes(p.drop_last()) + enc_text(p.last())
    }
}

pub open spec fn identities_bytes(s: Seq<(Seq<Seq<char>>, Seq<u8>, Seq<u8>)>) -> Seq<u8>
    decreases s.len(),
{
    if s.len() == 0 {
        Seq::empty()
    } else {
        identities_bytes(s.drop_last()) + (words_bytes(s.last().0) + (enc_address(s.last().1)
            + enc_bytes(s.last().2)))
    }
}

/// The canonical bytes of a state with the given parts.
pub open spec fn state_bytes_of(
    height: u64,
    symbols: Seq<(Seq<u8>, Seq<char>)>,
    balances: Seq<(Seq<u8>, Seq<u8>, nat)>,
    log: Seq<(u64, Seq<u8>)>,
    identities: Seq<(Seq<Seq<char>>, Seq<u8>, Seq<u8>)>,
) -> Seq<u8> {
    head(MAJOR_UNSIGNED, height) + (symbols_bytes(symbols) + (balances_bytes(balances) + (
    log_bytes(log) + identities_bytes(identities))))
}

/// The balance entries that a list of initial entries leaves, set one after
/// the other.
pub open spec fn genesis_entries(init: Seq<(Seq<u8>, Seq<u8>, nat)>) -> Seq<(Seq<u8>, Seq<u8>, nat)>
    decreases init.len(),
{
    if init.len() == 0 {
        Seq::empty()
    } else {
        set_entry(genesis_entries(init.drop_last()), init.last().0, init.last().1, init.last().2)
    }
}

/// The root hash of the genesis commit of the given symbols and initial entries.
pub open spec fn genesis_root(
    symbols: Seq<(Seq<u8>, Seq<char>)>,
    init: Seq<(Seq<u8>, Seq<u8>, nat)>,
) -> Seq<u8> {
    root_of(state_bytes_of(0, symbols, genesis_entries(init), Seq::empty(), Seq::empty()))
}

/// The root hash of a state: the big-endian FNV-1a digest of its canonical bytes.
pub open spec fn root_of(state: Seq<u8>) -> Seq<u8> {
    crate::bytes::be_bytes(fnv(state) as nat, 8)
}

/// The stored credential of the last record that `matches` selects.
pub open spec fn last_cred(
    s: Seq<(Seq<Seq<char>>, Seq<u8>, Seq<u8>)>,
    phrase: Option<Seq<Seq<char>>>,
    address: Option<Seq<u8>>,
) -> Option<Seq<u8>>
    decreases s.len(),
{
    if s.len() == 0 {
        None
    } else if (phrase matches Some(p) && s.last().0 == p) || (address matches Some(a) && s.last().1
        == a) {
        Some(s.last().2)
    } else {
        last_cred(s.drop_last(), phrase, address)
    }
}

/// The state of the ledger.
#[derive(Debug)]
pub struct LedgerStorage {
    symbols: Vec<SymbolEntry>,
    balances: Vec<BalanceEntry>,
    transactions: Vec<StoredTransaction>,
    identities: Vec<IdentityRecord>,
    height: u64,
    latest_tid: u64,
    time: u64,
    current_hash: Vec<u8>,
}

impl LedgerStorage {
    pub closed spec fn symbols_model(&self) -> Seq<(Seq<u8>, Seq<char>)> {
        self.symbols@.map_values(|e: SymbolEntry| e@)
    }

    pub closed spec fn balances_model(&self) -> Seq<(Seq<u8>, Seq<u8>, nat)> {
        entries_view(self.balances@)
    }

    pub closed spec fn log(&self) -> Seq<(u64, Seq<u8>)> {
        self.transactions@.map_values(|e: StoredTransaction| e@)
    }

    pub closed spec fn identities_model(&self) -> Seq<(Seq<Seq<char>>, Seq<u8>, Seq<u8>)> {
        self.identities@.map_values(|e: IdentityRecord| e@)
    }

    pub closed spec fn height_spec(&self) -> u64 {
        self.height
    }

    pub closed spec fn latest_tid_spec(&self) -> u64 {
        self.latest_tid
    }

    pub closed spec fn time_spec(&self) -> u64 {
        self.time
    }

    pub closed spec fn hash_spec(&self) -> Seq<u8> {
        self.current_hash@
    }

    /// The balance of account `a` in symbol `s`.
    pub open spec fn balance(&self, a: Seq<u8>, s: Seq<u8>) -> nat {
        balance_in(self.balances_model(), a, s)
    }

    /// The sum of all balances in symbol `s`.
    pub open spec fn supply(&self, s: Seq<u8>) -> nat {
        supply_in(self.balances_model(), s)
    }

    pub open spec fn is_symbol(&self, s: Seq<u8>) -> bool {
        exists|i: int| 0 <= i < self.symbols_model().len() && self.symbols_model()[i].0 == s
    }

    /// The canonical bytes of the whole state, which the root hash digests.
    pub open spec fn state_bytes(&self) -> Seq<u8> {
        state_bytes_of(
            self.height_spec(),
            self.symbols_model(),
            self.balances_model(),
            self.log(),
            self.identities_model(),
        )
    }

    pub open spec fn wf(&self) -> bool {
        &&& well_formed(self.balances_model())
        &&& self.latest_tid_spec() / BLOCK_SPAN == self.height_spec()
        &&& self.log().len() <= self.latest_tid_spec()
        &&& forall|i: int| 0 <= i < self.log().len() ==> self.log()[i].0 <= self.latest_tid_spec()
        &&& forall|i: int, j: int|
            0 <= i < j < self.log().len() ==> self.log()[i].0 < self.log()[j].0
    }

    /// A fresh state with the given symbols and initial balances, committed
    /// once at height zero.
    pub fn new(symbols: Vec<SymbolEntry>, initial: Vec<BalanceEntry>) -> (r: LedgerStorage)
        ensures
            r.wf(),
            r.symbols_model() == symbols@.map_values(|e: SymbolEntry| e@),
            r.height_spec() == 0,
            r.latest_tid_spec() == 0,
            r.time_spec() == 0,
            r.log().len() == 0,
            r.identities_model().len() == 0,
            r.balances_model() == genesis_entries(entries_view(initial@)),
            r.hash_spec() == genesis_root(
                symbols@.map_values(|e: SymbolEntry| e@),
                entries_view(initial@),
            ),
            forall|a: Seq<u8>, s: Seq<u8>|
                #[trigger] r.balance(a, s) == initial_balance(entries_view(initial@), a, s),
            r.hash_spec() == root_of(r.state_bytes()),
    {
        let mut balances: Vec<BalanceEntry> = Vec::new();
        let mut i: usize = 0;
        assert(entries_view(initial@).subrange(0, 0) =~= Seq::<(Seq<u8>, Seq<u8>, nat)>::empty());
        while i < initial.len()
            invariant
                i <= initial@.len(),
                well_formed(entries_view(balances@)),
                entries_view(balances@) == genesis_entries(entries_view(initial@).subrange(0, i as int)),
                forall|a: Seq<u8>, s: Seq<u8>|
                    #[trigger] balance_in(entries_view(balances@), a, s) == initial_balance(
                        entries_view(initial@).subrange(0, i as int),
                        a,
                        s,
                    ),
            decreases initial@.len() - i,
        {
            let e = &initial[i];
            set_balance(&mut balances, &e.account, &e.symbol, e.amount.duplicate());
            proof {
                let iv = entries_view(initial@);
                assert(iv.subrange(0, i + 1).drop_last() =~= iv.subrange(0, i as int));
            }
            i = i + 1;
        }
        proof {
            assert(entries_view(initial@).subrange(0, i as int) =~= entries_view(initial@));
        }
        let ghost symbols_v = symbols@.map_values(|e: SymbolEntry| e@);
        let mut st = LedgerStorage {
            symbols,
            balances,
            transactions: Vec::new(),
            identities: Vec::new(),
            height: 0,
            latest_tid: 0,
            time: 0,
            current_hash: Vec::new(),
        };
        st.current_hash = st.root_hash();
        assert(st.log() =~= Seq::<(u64, Seq<u8>)>::empty());
        assert(st.identities_model() =~= Seq::<(Seq<Seq<char>>, Seq<u8>, Seq<u8>)>::empty());
        assert(st.symbols_model() == symbols_v);
        st
    }

    /// Computes the root hash of the current state.
    fn root_hash(&self) -> (r: Vec<u8>)
        ensures
            r@ == root_of(self.state_bytes()),
    {
        let mut out: Vec<u8> = Vec::new();
        write_head(MAJOR_UNSIGNED, self.height, &mut out);
        write_symbols(&self.symbols, &mut out);
        write_balances(&self.balances, &mut out);
        write_log(&self.transactions, &mut out);
        write_identities(&self.identities, &mut out);
        assert(out@ =~= self.state_bytes());
        let d = digest(&out);
        let mut r: Vec<u8> = Vec::new();
        crate::bytes::push_be(d, 8, &mut r);
        assert(r@ =~= root_of(self.state_bytes()));
        r
    }

    pub fn hash(&self) -> (r: Vec<u8>)
        ensures
            r@ == self.hash_spec(),
    {
        crate::types::copy_bytes(&self.current_hash)
    }

    pub fn get_height(&self) -> (r: u64)
        ensures
            r == self.height_spec(),
    {
        self.height
    }

    pub fn nb_transactions(&self) -> (r: u64)
        requires
            self.wf(),
        ensures
            r == self.log().len(),
    {
        self.transactions.len() as u64
    }

    pub fn set_time(&mut self, secs: u64)
        ensures
            final(self).time_spec() == secs,
            final(self).wf() == old(self).wf(),
            final(self).balances_model() == old(self).balances_model(),
            final(self).symbols_model() == old(self).symbols_model(),
            final(self).log() == old(self).log(),
            final(self).identities_model() == old(self).identities_model(),
            final(self).height_spec() == old(self).height_spec(),
            final(self).latest_tid_spec() == old(self).latest_tid_spec(),
            final(self).hash_spec() == old(self).hash_spec(),
    {
        self.time = secs;
    }

    /// The registered symbols: each address with its local name.
    pub fn get_symbols(&self) -> (r: Vec<(Address, String)>)
        ensures
            r@.len() == self.symbols_model().len(),
            forall|i: int|
                0 <= i < r@.len() ==> (#[trigger] r@[i]).0@ == self.symbols_model()[i].0
                    && r@[i].1@ == self.symbols_model()[i].1,
    {
        let mut r: Vec<(Address, String)> = Vec::new();
        let mut i: usize = 0;
        while i < self.symbols.len()
            invariant
                i <= self.symbols@.len(),
                r@.len() == i,
                forall|j: int|
                    0 <= j < i ==> (#[trigger] r@[j]).0@ == self.symbols_model()[j].0 && r@[j].1@
                        == self.symbols_model()[j].1,
            decreases self.symbols@.len() - i,
        {
            let e = &self.symbols[i];
            r.push((e.address.duplicate(), e.name.clone()));
            i = i + 1;
        }
        r
    }

    /// The name of symbol `s`, if it is registered.
    pub fn symbol_name(&self, s: &Address) -> (r: Option<String>)
        ensures
            r is Some <==> self.is_symbol(s@),
            r matches Some(n) ==> n@ == symbol_name_of(self.symbols_model(), s@),
    {
        let mut i: usize = 0;
        while i < self.symbols.len()
            invariant
                i <= self.symbols@.len(),
                forall|j: int| 0 <= j < i ==> self.symbols_model()[j].0 != s@,
            decreases self.symbols@.len() - i,
        {
            if self.symbols[i].address.same(s) {
                let n = self.symbols[i].name.clone();
                proof {
                    assert(first_symbol_at(self.symbols_model(), s@, i as int));
                    lemma_symbol_name_of(self.symbols_model(), s@, i as int);
                }
                return Some(n);
            }
            i = i + 1;
        }
        None
    }

    /// The balance of `a` in `s`.
    pub fn get_balance(&self, a: &Address, s: &Address) -> (r: TokenAmount)
        requires
            self.wf(),
        ensures
            r@ == self.balance(a@, s@),
    {
        get_balance(&self.balances, a, s)
    }

    /// Moves `amount` of symbol `symbol` from `from` to `to`, and logs it.
    pub fn send(&mut self, from: &Address, to: &Address, symbol: &Address, amount: TokenAmount) -> (r:
        Result<(), LedgerError>)
        requires
            old(self).wf(),
        ensures
            final(self).wf(),
            !old(self).is_symbol(symbol@) ==> r matches Err(LedgerError::UnknownSymbol),
            old(self).is_symbol(symbol@) && old(self).balance(from@, symbol@) < amount@ ==> r matches Err(
                LedgerError::InsufficientFunds,
            ),
            old(self).is_symbol(symbol@) && old(self).balance(from@, symbol@) >= amount@ && old(self).latest_tid_spec() % BLOCK_SPAN == BLOCK_SPAN - 1 ==> r matches Err(
                LedgerError::Unknown,
            ),
            r is Ok <==> old(self).is_symbol(symbol@) && old(self).balance(from@, symbol@) >= amount@
                && old(self).latest_tid_spec() % BLOCK_SPAN != BLOCK_SPAN - 1,
            r is Err ==> final(self).balances_model() == old(self).balances_model() && final(self).log() == old(self).log() && final(self).latest_tid_spec() == old(self).latest_tid_spec(),
            r is Ok ==> {
                &&& forall|a: Seq<u8>, s: Seq<u8>|
                    #[trigger] final(self).balance(a, s) == old(self).balance(a, s) - (if a == from@
                        && s == symbol@ {
                        amount@
                    } else {
                        0
                    }) + (if a == to@ && s == symbol@ {
                        amount@
                    } else {
                        0
                    })
                &&& forall|s: Seq<u8>| #[trigger] final(self).supply(s) == old(self).supply(s)
                &&& final(self).latest_tid_spec() == old(self).latest_tid_spec() + 1
                &&& final(self).latest_tid_spec() / BLOCK_SPAN == old(self).height_spec()
                &&& final(self).log() == old(self).log().push(
                    (
                        final(self).latest_tid_spec(),
                        enc_transaction(
                            TransactionModel {
                                id: final(self).latest_tid_spec(),
                                time: old(self).time_spec(),
                                content: ContentModel::Send {
                                    from: from@,
                                    to: to@,
                                    symbol: symbol_name_of(old(self).symbols_model(), symbol@),
                                    amount: amount@,
                                },
                            },
                        ),
                    ),
                )
            },
            final(self).symbols_model() == old(self).symbols_model(),
            final(self).identities_model() == old(self).identities_model(),
            final(self).height_spec() == old(self).height_spec(),
            final(self).time_spec() == old(self).time_spec(),
            final(self).hash_spec() == old(self).hash_spec(),
    {
        let name = match self.symbol_name(symbol) {
            Some(n) => n,
            None => return Err(LedgerError::UnknownSymbol),
        };
        let from_balance = get_balance(&self.balances, from, symbol);
        if !amount.le(&from_balance) {
            return Err(LedgerError::InsufficientFunds);
        }
        if self.latest_tid % BLOCK_SPAN == BLOCK_SPAN - 1 {
            return Err(LedgerError::Unknown);
        }
        let ghost old_bal = self.balances_model();
        let mut new_from = from_balance;
        new_from.sub_assign(amount.duplicate());
        set_balance(&mut self.balances, from, symbol, new_from);
        let mut new_to = get_balance(&self.balances, to, symbol);
        new_to.add_assign(amount.duplicate());
        set_balance(&mut self.balances, to, symbol, new_to);
        proof {
            assert forall|s: Seq<u8>| #[trigger] supply_in(self.balances_model(), s) == supply_in(
                old_bal,
                s,
            ) by {}
        }
        let id = self.latest_tid + 1;
        let tx = Transaction::send(
            TransactionId(id),
            Timestamp(self.time),
            from.duplicate(),
            to.duplicate(),
            name,
            amount,
        );
        let bytes = tx.encode();
        self.transactions.push(StoredTransaction { id, bytes });
        self.latest_tid = id;
        proof {
            assert(self.log() =~= old(self).log().push((id, bytes@)));
            assert(id / BLOCK_SPAN == old(self).latest_tid / BLOCK_SPAN);
        }
        Ok(())
    }

    /// Ends a block: the height goes up by one, the root hash is taken over
    /// the whole state, and ids of the next block start above the new height.
    /// No migrations are registered for this ledger, so the state that a
    /// second pass after migrations would hash is the same: the hash is taken once.
    pub fn commit(&mut self) -> (r: AbciCommitInfo)
        requires
            old(self).wf(),
            old(self).height_spec() < 0xffff_ffff,
        ensures
            final(self).wf(),
            final(self).height_spec() == old(self).height_spec() + 1,
            final(self).latest_tid_spec() == final(self).height_spec() * BLOCK_SPAN,
            final(self).hash_spec() == root_of(final(self).state_bytes()),
            r.retain_height == 0,
            r.hash@ == final(self).hash_spec(),
            final(self).balances_model() == old(self).balances_model(),
            final(self).symbols_model() == old(self).symbols_model(),
            final(self).log() == old(self).log(),
            final(self).identities_model() == old(self).identities_model(),
            final(self).time_spec() == old(self).time_spec(),
    {
        let ghost old_tid = self.latest_tid as int;
        let height = self.height + 1;
        self.height = height;
        self.latest_tid = height * BLOCK_SPAN;
        proof {
            let hh = height as int;
            assert(old_tid < hh * 0x1_0000_0000) by (nonlinear_arith)
                requires
                    old_tid / 0x1_0000_0000 == hh - 1,
                    old_tid >= 0,
            ;
            assert((hh * 0x1_0000_0000) / 0x1_0000_0000 == hh) by (nonlinear_arith);
        }
        let hash = self.root_hash();
        self.current_hash = crate::types::copy_bytes(&hash);
        AbciCommitInfo { retain_height: 0, hash }
    }

    /// The logged transactions in id order: each id with its bytes.
    pub fn transaction_log(&self) -> (r: &Vec<StoredTransaction>)
        ensures
            r@.map_values(|e: StoredTransaction| e@) == self.log(),
    {
        &self.transactions
    }

    /// The credential stored under `phrase`.
    pub fn get_from_recall_phrase(&self, phrase: &Vec<String>) -> (r: Result<Vec<u8>, LedgerError>)
        ensures
            match last_cred(self.identities_model(), Some(phrase_view(phrase@)), None) {
                Some(c) => r matches Ok(v) && v@ == c,
                None => r matches Err(LedgerError::NotFound),
            },
    {
        let mut i: usize = self.identities.len();
        assert(self.identities_model().subrange(0, i as int) =~= self.identities_model());
        while i > 0
            invariant
                i <= self.identities@.len(),
                last_cred(self.identities_model(), Some(phrase_view(phrase@)), None) == last_cred(
                    self.identities_model().subrange(0, i as int),
                    Some(phrase_view(phrase@)),
                    None,
                ),
            decreases i,
        {
            let rec = &self.identities[i - 1];
            let ghost sub = self.identities_model().subrange(0, i as int);
            proof {
                assert(sub.drop_last() =~= self.identities_model().subrange(0, i - 1));
            }
            if same_phrase(&rec.phrase, phrase) {
                return Ok(crate::types::copy_bytes(&rec.cred_id));
            }
            i = i - 1;
        }
        Err(LedgerError::NotFound)
    }

    /// The credential last stored for `address`.
    pub fn get_from_address(&self, address: &Address) -> (r: Result<Vec<u8>, LedgerError>)
        ensures
            match last_cred(self.identities_model(), None, Some(address@)) {
                Some(c) => r matches Ok(v) && v@ == c,
                None => r matches Err(LedgerError::NotFound),
            },
    {
        let mut i: usize = self.identities.len();
        assert(self.identities_model().subrange(0, i as int) =~= self.identities_model());
        while i > 0
            invariant
                i <= self.identities@.len(),
                last_cred(self.identities_model(), None, Some(address@)) == last_cred(
                    self.identities_model().subrange(0, i as int),
                    None,
                    Some(address@),
                ),
            decreases i,
        {
            let rec = &self.identities[i - 1];
            let ghost sub = self.identities_model().subrange(0, i as int);
            proof {
                assert(sub.drop_last() =~= self.identities_model().subrange(0, i - 1));
            }
            if rec.address.same(address) {
                return Ok(crate::types::copy_bytes(&rec.cred_id));
            }
            i = i - 1;
        }
        Err(LedgerError::NotFound)
    }

    /// Records a credential under a recall phrase and an address.
    pub fn store(&mut self, phrase: Vec<String>, address: Address, cred_id: Vec<u8>)
        ensures
            final(self).identities_model() == old(self).identities_model().push(
                (phrase_view(phrase@), address@, cred_id@),
            ),
            final(self).wf() == old(self).wf(),
            final(self).balances_model() == old(self).balances_model(),
            final(self).symbols_model() == old(self).symbols_model(),
            final(self).log() == old(self).log(),
            final(self).height_spec() == old(self).height_spec(),
            final(self).latest_tid_spec() == old(self).latest_tid_spec(),
            final(self).time_spec() == old(self).time_spec(),
            final(self).hash_spec() == old(self).hash_spec(),
    {
        let rec = IdentityRecord { phrase, address, cred_id };
        self.identities.push(rec);
        assert(self.identities_model() =~= old(self).identities_model().push(rec@));
    }
}

/// The balance that a list of initial entries leaves: the last entry for a key wins.
pub open spec fn initial_balance(s: Seq<(Seq<u8>, Seq<u8>, nat)>, a: Seq<u8>, sym: Seq<u8>) -> nat
    decreases s.len(),
{
    if s.len() == 0 {
        0
    } else if s.last().0 == a && s.last().1 == sym {
        s.last().2
    } else {
        initial_balance(s.drop_last(), a, sym)
    }
}

pub open spec fn first_symbol_at(syms: Seq<(Seq<u8>, Seq<char>)>, s: Seq<u8>, i: int) -> bool {
    0 <= i < syms.len() && syms[i].0 == s && forall|j: int| 0 <= j < i ==> syms[j].0 != s
}

/// The local name of the first registration of symbol `s`.
pub open spec fn symbol_name_of(syms: Seq<(Seq<u8>, Seq<char>)>, s: Seq<u8>) -> Seq<char> {
    syms[choose|i: int| first_symbol_at(syms, s, i)].1
}

proof fn lemma_symbol_name_of(syms: Seq<(Seq<u8>, Seq<char>)>, s: Seq<u8>, i: int)
    requires
        first_symbol_at(syms, s, i),
    ensures
        symbol_name_of(syms, s) == syms[i].1,
{
    let k = choose|k: int| first_symbol_at(syms, s, k);
    assert(first_symbol_at(syms, s, k));
    if k < i {
        assert(syms[k].0 != s);
    } else if k > i {
        assert(syms[i].0 != s);
    }
}

/// Compares two recall phrases word by word.
fn same_phrase(a: &Vec<String>, b: &Vec<String>) -> (r: bool)
    ensures
        r == (phrase_view(a@) == phrase_view(b@)),
{
    if a.len() != b.len() {
        proof {
            assert(phrase_view(a@).len() != phrase_view(b@).len());
        }
        return false;
    }
    let mut i: usize = 0;
    while i < a.len()
        invariant
            i <= a@.len(),
            a@.len() == b@.len(),
            forall|j: int| 0 <= j < i ==> a@[j]@ == b@[j]@,
        decreases a@.len() - i,
    {
        if a[i] != b[i] {
            proof {
                assert(phrase_view(a@)[i as int] != phrase_view(b@)[i as int]);
            }
            return false;
        }
        i = i + 1;
    }
    assert(phrase_view(a@) =~= phrase_view(b@));
    true
}

/// The FNV-1a digest of `s`.
fn digest(s: &Vec<u8>) -> (r: u64)
    ensures
        r == fnv(s@),
{
    let mut h: u64 = FNV_OFFSET;
    let mut i: usize = 0;
    while i < s.len()
        invariant
            i <= s@.len(),
            h == fnv(s@.subrange(0, i as int)),
        decreases s@.len() - i,
    {
        proof {
            assert(s@.subrange(0, i + 1).drop_last() =~= s@.subrange(0, i as int));
        }
        let x: u64 = h ^ (s[i] as u64);
        h = ((x as u128 * FNV_PRIME as u128) % 0x1_0000_0000_0000_0000u128) as u64;
        i = i + 1;
    }
    assert(s@.subrange(0, i as int) =~= s@);
    h
}

fn write_symbols(syms: &Vec<SymbolEntry>, out: &mut Vec<u8>)
    ensures
        final(out)@ == old(out)@ + symbols_bytes(syms@.map_values(|e: SymbolEntry| e@)),
{
    let ghost before = out@;
    let ghost v = syms@.map_values(|e: SymbolEntry| e@);
    let mut i: usize = 0;
    assert(v.subrange(0, 0) =~= Seq::<(Seq<u8>, Seq<char>)>::empty());
    while i < syms.len()
        invariant
            i <= syms@.len(),
            v == syms@.map_values(|e: SymbolEntry| e@),
            out@ == before + symbols_bytes(v.subrange(0, i as int)),
        decreases syms@.len() - i,
    {
        syms[i].address.write(out);
        write_text(&syms[i].name, out);
        proof {
            assert(v.subrange(0, i + 1).drop_last() =~= v.subrange(0, i as int));
        }
        i = i + 1;
        assert(out@ =~= before + symbols_bytes(v.subrange(0, i as int)));
    }
    assert(v.subrange(0, i as int) =~= v);
}

fn write_balances(es: &Vec<BalanceEntry>, out: &mut Vec<u8>)
    ensures
        final(out)@ == old(out)@ + balances_bytes(entries_view(es@)),
{
    let ghost before = out@;
    let ghost v = entries_view(es@);
    let mut i: usize = 0;
    assert(v.subrange(0, 0) =~= Seq::<(Seq<u8>, Seq<u8>, nat)>::empty());
    while i < es.len()
        invariant
            i <= es@.len(),
            v == entries_view(es@),
            out@ == before + balances_bytes(v.subrange(0, i as int)),
        decreases es@.len() - i,
    {
        es[i].account.write(out);
        es[i].symbol.write(out);
        es[i].amount.write(out);
        proof {
            assert(v.subrange(0, i + 1).drop_last() =~= v.subrange(0, i as int));
        }
        i = i + 1;
        assert(out@ =~= before + balances_bytes(v.subrange(0, i as int)));
    }
    assert(v.subrange(0, i as int) =~= v);
}

fn write_log(ts: &Vec<StoredTransaction>, out: &mut Vec<u8>)
    ensures
        final(out)@ == old(out)@ + log_bytes(ts@.map_values(|e: StoredTransaction| e@)),
{
    let ghost before = out@;
    let ghost v = ts@.map_values(|e: StoredTransaction| e@);
    let mut i: usize = 0;
    assert(v.subrange(0, 0) =~= Seq::<(u64, Seq<u8>)>::empty());
    while i < ts.len()
        invariant
            i <= ts@.len(),
            v == ts@.map_values(|e: StoredTransaction| e@),
            out@ == before + log_bytes(v.subrange(0, i as int)),
        decreases ts@.len() - i,
    {
        write_head(MAJOR_UNSIGNED, ts[i].id, out);
        write_bytes(ts[i].bytes.as_slice(), out);
        proof {
            assert(v.subrange(0, i + 1).drop_last() =~= v.subrange(0, i as int));
        }
        i = i + 1;
        assert(out@ =~= before + log_bytes(v.subrange(0, i as int)));
    }
    assert(v.subrange(0, i as int) =~= v);
}

fn write_words(p: &Vec<String>, out: &mut Vec<u8>)
    ensures
        final(out)@ == old(out)@ + words_bytes(phrase_view(p@)),
{
    let ghost before = out@;
    let ghost v = phrase_view(p@);
    let mut i: usize = 0;
    assert(v.subrange(0, 0) =~= Seq::<Seq<char>>::empty());
    while i < p.len()
        invariant
            i <= p@.len(),
            v == phrase_view(p@),
            out@ == before + words_bytes(v.subrange(0, i as int)),
        decreases p@.len() - i,
    {
        write_text(&p[i], out);
        proof {
            assert(v.subrange(0, i + 1).drop_last() =~= v.subrange(0, i as int));
        }
        i = i + 1;
        assert(out@ =~= before + words_bytes(v.subrange(0, i as int)));
    }
    assert(v.subrange(0, i as int) =~= v);
}

fn write_identities(rs: &Vec<IdentityRecord>, out: &mut Vec<u8>)
    ensures
        final(out)@ == old(out)@ + identities_bytes(rs@.map_values(|e: IdentityRecord| e@)),
{
    let ghost before = out@;
    let ghost v = rs@.map_values(|e: IdentityRecord| e@);
    let mut i: usize = 0;
    assert(v.subrange(0, 0) =~= Seq::<(Seq<Seq<char>>, Seq<u8>, Seq<u8>)>::empty());
    while i < rs.len()
        invariant
            i <= rs@.len(),
            v == rs@.map_values(|e: IdentityRecord| e@),
            out@ == before + identities_bytes(v.subrange(0, i as int)),
        decreases rs@.len() - i,
    {
        write_words(&rs[i].phrase, out);
        rs[i].address.write(out);
        write_bytes(rs[i].cred_id.as_slice(), out);
        proof {
            assert(v.subrange(0, i + 1).drop_last() =~= v.subrange(0, i as int));
        }
        i = i + 1;
        assert(out@ =~= before + identities_bytes(v.subrange(0, i as int)));
    }
    assert(v.subrange(0, i as int) =~= v);
}

} // verus!
