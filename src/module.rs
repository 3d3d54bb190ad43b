//! The ledger's query and command surface, and the block driver.
use crate::balances::BalanceEntry;
use crate::error::LedgerError;
use crate::transaction::{enc_transaction, ContentModel, TransactionModel};
use crate::storage::{
    symbol_name_of, genesis_entries, genesis_root, initial_balance, root_of, AbciCommitInfo, LedgerStorage,
    SymbolEntry,
};
use crate::balances::entries_view;
use crate::idstore::{attempt, attempt_phrase, attempt_words, first_free, generate_entropy};
use crate::storage::{last_cred, phrase_view};
use crate::types::{is_public_key_address, Address, TokenAmount};
use vstd::prelude::*;

verus! {

/// The most transactions one `list` call returns.
pub const MAXIMUM_TRANSACTION_COUNT: u64 = 100;

pub open spec fn hex_digit(n: u8) -> char {
    seq!['0', '1', '2', '3', '4', '5', '6', '7', '8', '9', 'a', 'b', 'c', 'd', 'e', 'f'][n as int]
}

/// Lowercase hexadecimal, two digits per byte, high digit first.
pub open spec fn hex_of(b: Seq<u8>) -> Seq<char>
    decreases b.len(),
{
    if b.len() == 0 {
        Seq::empty()
    } else {
        hex_of(b.drop_last()) + seq![hex_digit(b.last() / 16), hex_digit(b.last() % 16)]
    }
}

/// Relies on `hex::encode`: two lowercase hexadecimal digits per byte.
#[verifier::external_body]
fn hex_encode(b: &Vec<u8>) -> (r: String)
    ensures
        r@ == hex_of(b@),
{
    hex::encode(b)
}

/// The genesis state: symbols with their names, initial balances, and the
/// root hash the genesis commit must give, in hexadecimal.
#[derive(Debug)]
pub struct InitialStateJson {
    pub initial: Vec<BalanceEntry>,
    pub symbols: Vec<SymbolEntry>,
    pub hash: Option<String>,
}

pub struct InfoReturns {
    pub symbols: Vec<Address>,
    pub hash: Vec<u8>,
    pub local_names: Vec<(Address, String)>,
}

pub struct BalanceArgs {
    pub account: Option<Address>,
    pub symbols: Option<Vec<Address>>,
}

pub struct BalanceReturns {
    pub balances: Vec<(Address, TokenAmount)>,
}

pub struct SendArgs {
    pub from: Option<Address>,
    pub to: Address,
    pub amount: TokenAmount,
    pub symbol: Address,
}

pub struct TransactionsReturns {
    pub nb_transactions: u64,
}

pub struct EndpointInfo {
    pub is_command: bool,
}

pub struct AbciInit {
    pub endpoints: Vec<(String, EndpointInfo)>,
}

pub struct AbciBlock {
    pub time: Option<u64>,
}

pub struct AbciInfo {
    pub height: u64,
    pub hash: Vec<u8>,
}

pub struct StoreArgs {
    pub address: Address,
    pub cred_id: Vec<u8>,
}

pub struct StoreReturns(pub Vec<String>);

pub struct GetReturns(pub Vec<u8>);

pub open spec fn draws_view(draws: Seq<Vec<u8>>) -> Seq<Seq<u8>> {
    draws.map_values(|d: Vec<u8>| d@)
}

/// Copies a recall phrase.
fn copy_phrase(p: &Vec<String>) -> (r: Vec<String>)
    ensures
        phrase_view(r@) == phrase_view(p@),
        r@.len() == p@.len(),
{
    let mut r: Vec<String> = Vec::new();
    let mut i: usize = 0;
    while i < p.len()
        invariant
            i <= p@.len(),
            r@.len() == i,
            forall|j: int| 0 <= j < i ==> r@[j]@ == p@[j]@,
        decreases p@.len() - i,
    {
        r.push(p[i].clone());
        i = i + 1;
    }
    assert(phrase_view(r@) =~= phrase_view(p@));
    r
}

/// The nonzero balances of account `a` among symbols `syms`, in order.
pub open spec fn balances_of(st: LedgerStorage, a: Seq<u8>, syms: Seq<Seq<u8>>) -> Seq<(Seq<u8>, nat)>
    decreases syms.len(),
{
    if syms.len() == 0 {
        Seq::empty()
    } else {
        let rest = balances_of(st, a, syms.drop_last());
        if st.balance(a, syms.last()) > 0 {
            rest.push((syms.last(), st.balance(a, syms.last())))
        } else {
            rest
        }
    }
}

/// Two stores whose height, symbols, balances, transaction log and identity
/// records agree have the same root hash: the hash depends on nothing else.
pub proof fn lemma_root_hash_deterministic(a: LedgerStorage, b: LedgerStorage)
    requires
        a.height_spec() == b.height_spec(),
        a.symbols_model() == b.symbols_model(),
        a.balances_model() == b.balances_model(),
        a.log() == b.log(),
        a.identities_model() == b.identities_model(),
    ensures
        root_of(a.state_bytes()) == root_of(b.state_bytes()),
{
}

/// Along a run of states in which each step keeps every symbol's supply (as
/// each successful `send` does), the supply at the end is the supply at the
/// start.
pub proof fn lemma_supply_invariant_over_sends(run: Seq<LedgerStorage>, s: Seq<u8>)
    requires
        run.len() >= 1,
        forall|i: int, t: Seq<u8>|
            0 <= i < run.len() - 1 ==> #[trigger] run[i + 1].supply(t) == run[i].supply(t),
    ensures
        run.last().supply(s) == run[0].supply(s),
    decreases run.len(),
{
    if run.len() > 1 {
        let shorter = run.drop_last();
        assert forall|i: int, t: Seq<u8>| 0 <= i < shorter.len() - 1 implies #[trigger] shorter[i
            + 1].supply(t) == shorter[i].supply(t) by {
            assert(run[i + 1].supply(t) == run[i].supply(t));
        }
        lemma_supply_invariant_over_sends(shorter, s);
        let k = run.len() - 2;
        assert(run[k + 1].supply(s) == run[k].supply(s));
        assert(shorter.last() == run[k]);
    }
}

/// The attempt that `first_free` picks lies between `k` and eight, and its
/// phrase is used by no stored record.
pub proof fn lemma_first_free_unused(
    ids: Seq<(Seq<Seq<char>>, Seq<u8>, Seq<u8>)>,
    draws: Seq<Seq<u8>>,
    k: nat,
)
    ensures
        first_free(ids, draws, k) matches Some(j) ==> k <= j <= 8 && 1 <= j && last_cred(
            ids,
            Some(attempt_phrase(draws, j)),
            None,
        ) is None,
    decreases 9 - k,
{
    if k >= 1 && k <= 8 && last_cred(ids, Some(attempt_phrase(draws, k)), None) is Some {
        lemma_first_free_unused(ids, draws, k + 1);
    }
}

/// The root hash of the genesis commit of a genesis state.
pub open spec fn genesis_of(s: InitialStateJson) -> Seq<u8> {
    genesis_root(s.symbols@.map_values(|e: SymbolEntry| e@), entries_view(s.initial@))
}

/// The ledger module: storage and what callers may do with it.
#[derive(Debug)]
pub struct LedgerModuleImpl {
    storage: LedgerStorage,
}

impl LedgerModuleImpl {
    pub closed spec fn storage_spec(&self) -> LedgerStorage {
        self.storage
    }

    pub open spec fn wf(&self) -> bool {
        self.storage_spec().wf()
    }

    /// Builds the module. With a genesis state, the store starts from it and
    /// its root hash must match the one given; without one, the store starts
    /// empty.
    pub fn new(initial_state: Option<InitialStateJson>, _blockchain: bool) -> (r: Result<
        LedgerModuleImpl,
        LedgerError,
    >)
        ensures
            r matches Ok(m) ==> m.wf() && m.storage_spec().height_spec() == 0
                && m.storage_spec().latest_tid_spec() == 0 && m.storage_spec().log().len() == 0
                && m.storage_spec().identities_model().len() == 0 && m.storage_spec().hash_spec()
                == root_of(m.storage_spec().state_bytes()),
            initial_state is None ==> r is Ok && r->Ok_0.storage_spec().symbols_model().len() == 0
                && r->Ok_0.storage_spec().balances_model().len() == 0,
            initial_state matches Some(s) ==> match s.hash {
                None => r is Ok,
                Some(h) => (r is Ok <==> h@ == hex_of(genesis_of(s))) && (r matches Err(
                    LedgerError::InvalidInitialState { expected, actual },
                ) ==> expected@ == h@ && actual@ == hex_of(genesis_of(s))),
            },
            initial_state matches Some(s) ==> (r matches Ok(m) ==> (forall|a: Seq<u8>, t: Seq<u8>|
                #[trigger] m.storage_spec().balance(a, t) == initial_balance(
                    entries_view(s.initial@),
                    a,
                    t,
                )) && m.storage_spec().symbols_model() == s.symbols@.map_values(
                |e: SymbolEntry| e@,
            ) && m.storage_spec().balances_model() == genesis_entries(entries_view(s.initial@))
                && m.storage_spec().hash_spec() == genesis_of(s)),
            r matches Err(e) ==> e is InvalidInitialState,
    {
        match initial_state {
            Some(state) => {
                let InitialStateJson { initial, symbols, hash } = state;
                let storage = LedgerStorage::new(symbols, initial);
                match hash {
                    Some(h) => {
                        let actual = hex_encode(&storage.hash());
                        if actual != h {
                            return Err(LedgerError::InvalidInitialState { expected: h, actual });
                        }
                    },
                    None => {},
                }
                Ok(LedgerModuleImpl { storage })
            },
            None => {
                let storage = LedgerStorage::new(Vec::new(), Vec::new());
                assert(storage.symbols_model().len() == 0);
                assert(genesis_entries(Seq::empty()).len() == 0);
                Ok(LedgerModuleImpl { storage })
            },
        }
    }

    /// The registered symbols, the root hash, and the symbols' local names.
    pub fn info(&self, _sender: &Address) -> (r: InfoReturns)
        ensures
            r.hash@ == self.storage_spec().hash_spec(),
            r.symbols@.len() == self.storage_spec().symbols_model().len(),
            r.local_names@.len() == self.storage_spec().symbols_model().len(),
            forall|i: int|
                0 <= i < r.symbols@.len() ==> (#[trigger] r.symbols@[i])@
                    == self.storage_spec().symbols_model()[i].0 && r.local_names@[i].0@
                    == self.storage_spec().symbols_model()[i].0 && r.local_names@[i].1@
                    == self.storage_spec().symbols_model()[i].1,
    {
        let hash = self.storage.hash();
        let local_names = self.storage.get_symbols();
        let mut symbols: Vec<Address> = Vec::new();
        let mut i: usize = 0;
        while i < local_names.len()
            invariant
                i <= local_names@.len(),
                symbols@.len() == i,
                forall|j: int| 0 <= j < i ==> (#[trigger] symbols@[j])@ == local_names@[j].0@,
            decreases local_names@.len() - i,
        {
            symbols.push(local_names[i].0.duplicate());
            i = i + 1;
        }
        InfoReturns { symbols, hash, local_names }
    }

    /// The nonzero balances of `args.account` (else of the sender) in the
    /// symbols asked for (all registered symbols when none are given).
    pub fn balance(&self, sender: &Address, args: BalanceArgs) -> (r: BalanceReturns)
        requires
            self.wf(),
        ensures
            ({
                let a = match args.account {
                    Some(x) => x@,
                    None => sender@,
                };
                let asked = match args.symbols {
                    Some(v) => v@.map_values(|s: Address| s@),
                    None => Seq::empty(),
                };
                let syms = if asked.len() > 0 {
                    asked
                } else {
                    self.storage_spec().symbols_model().map_values(
                        |e: (Seq<u8>, Seq<char>)| e.0,
                    )
                };
                r.balances@.map_values(|e: (Address, TokenAmount)| (e.0@, e.1@)) == balances_of(
                    self.storage_spec(),
                    a,
                    syms,
                )
            }),
    {
        let BalanceArgs { account, symbols } = args;
        let identity = match account {
            Some(x) => x,
            None => sender.duplicate(),
        };
        let asked = match symbols {
            Some(v) => v,
            None => Vec::new(),
        };
        let syms: Vec<Address> = if asked.len() > 0 {
            asked
        } else {
            let info = self.info(sender);
            proof {
                assert(info.symbols@.map_values(|s: Address| s@) =~= self.storage_spec().symbols_model().map_values(
                    |e: (Seq<u8>, Seq<char>)| e.0,
                ));
            }
            info.symbols
        };
        let ghost sv = syms@.map_values(|s: Address| s@);
        let mut balances: Vec<(Address, TokenAmount)> = Vec::new();
        let mut i: usize = 0;
        proof {
            assert(sv.subrange(0, 0) =~= Seq::<Seq<u8>>::empty());
        }
        while i < syms.len()
            invariant
                i <= syms@.len(),
                sv == syms@.map_values(|s: Address| s@),
                self.wf(),
                balances@.map_values(|e: (Address, TokenAmount)| (e.0@, e.1@)) == balances_of(
                    self.storage_spec(),
                    identity@,
                    sv.subrange(0, i as int),
                ),
            decreases syms@.len() - i,
        {
            let amount = self.storage.get_balance(&identity, &syms[i as usize]);
            proof {
                assert(sv.subrange(0, i + 1).drop_last() =~= sv.subrange(0, i as int));
            }
            let ghost before = balances@;
            if !amount.is_zero() {
                balances.push((syms[i].duplicate(), amount));
                proof {
                    assert(balances@.map_values(|e: (Address, TokenAmount)| (e.0@, e.1@))
                        =~= before.map_values(|e: (Address, TokenAmount)| (e.0@, e.1@)).push(
                        (sv[i as int], self.storage_spec().balance(identity@, sv[i as int])),
                    ));
                }
            }
            i = i + 1;
        }
        proof {
            assert(sv.subrange(0, i as int) =~= sv);
        }
        BalanceReturns { balances }
    }

    /// Sends tokens on behalf of `sender`, who must be the payer.
    pub fn send(&mut self, sender: &Address, args: SendArgs) -> (r: Result<(), LedgerError>)
        requires
            old(self).wf(),
        ensures
            final(self).wf(),
            ({
                let from = match args.from {
                    Some(f) => f@,
                    None => sender@,
                };
                let st = old(self).storage_spec();
                let ok = st.is_symbol(args.symbol@) && st.balance(from, args.symbol@)
                    >= args.amount@ && st.latest_tid_spec() % crate::storage::BLOCK_SPAN
                    != crate::storage::BLOCK_SPAN - 1;
                &&& from != sender@ ==> (r is Err && r->Err_0 is Unauthorized)
                &&& from == sender@ && !st.is_symbol(args.symbol@) ==> (r is Err && r->Err_0 is UnknownSymbol)
                &&& from == sender@ && st.is_symbol(args.symbol@) && st.balance(from, args.symbol@)
                    < args.amount@ ==> (r is Err && r->Err_0 is InsufficientFunds)
                &&& from == sender@ && st.is_symbol(args.symbol@) && st.balance(from, args.symbol@)
                    >= args.amount@ && !ok ==> (r is Err && r->Err_0 is Unknown)
                &&& r is Err ==> final(self).storage_spec().latest_tid_spec() == st.latest_tid_spec()
                &&& r is Ok ==> final(self).storage_spec().latest_tid_spec() == st.latest_tid_spec() + 1
                &&& r is Ok ==> final(self).storage_spec().log() == st.log().push(
                    (
                        final(self).storage_spec().latest_tid_spec(),
                        enc_transaction(
                            TransactionModel {
                                id: final(self).storage_spec().latest_tid_spec(),
                                time: st.time_spec(),
                                content: ContentModel::Send {
                                    from: from,
                                    to: args.to@,
                                    symbol: symbol_name_of(st.symbols_model(), args.symbol@),
                                    amount: args.amount@,
                                },
                            },
                        ),
                    ),
                )
                &&& r is Ok <==> from == sender@ && ok
                &&& r is Err ==> final(self).storage_spec().balances_model() == st.balances_model()
                    && final(self).storage_spec().log() == st.log()
                &&& r is Ok ==> forall|a: Seq<u8>, s: Seq<u8>|
                    #[trigger] final(self).storage_spec().balance(a, s) == st.balance(a, s) - (if a
                        == from && s == args.symbol@ {
                        args.amount@
                    } else {
                        0
                    }) + (if a == args.to@ && s == args.symbol@ {
                        args.amount@
                    } else {
                        0
                    })
                &&& r is Ok ==> forall|s: Seq<u8>| #[trigger]
                    final(self).storage_spec().supply(s) == st.supply(s)
                &&& r is Ok ==> final(self).storage_spec().log().len() == st.log().len() + 1
                &&& r is Ok ==> final(self).storage_spec().log().last().0
                    == final(self).storage_spec().latest_tid_spec()
                &&& r is Ok ==> final(self).storage_spec().log().last().0 / crate::storage::BLOCK_SPAN
                    == st.height_spec()
                &&& r is Ok ==> forall|i: int|
                    0 <= i < st.log().len() ==> #[trigger] st.log()[i].0 < final(self).storage_spec().log().last().0
            }),
            final(self).storage_spec().height_spec() == old(self).storage_spec().height_spec(),
            final(self).storage_spec().symbols_model() == old(self).storage_spec().symbols_model(),
            final(self).storage_spec().identities_model() == old(self).storage_spec().identities_model(),
            final(self).storage_spec().time_spec() == old(self).storage_spec().time_spec(),
            final(self).storage_spec().hash_spec() == old(self).storage_spec().hash_spec(),
    {
        let SendArgs { from, to, amount, symbol } = args;
        let from = match from {
            Some(f) => f,
            None => sender.duplicate(),
        };
        if !from.same(sender) {
            return Err(LedgerError::Unauthorized);
        }
        self.storage.send(&from, &to, &symbol, amount)
    }

    /// How many transactions the log holds.
    pub fn transactions(&self) -> (r: TransactionsReturns)
        requires
            self.wf(),
        ensures
            r.nb_transactions == self.storage_spec().log().len(),
    {
        TransactionsReturns { nb_transactions: self.storage.nb_transactions() }
    }

    /// The endpoints, each marked as a command or a query.
    pub fn init(&mut self) -> (r: AbciInit)
        ensures
            r.endpoints@.len() == 8,
            r.endpoints@[0].0@ == "ledger.info"@ && r.endpoints@[0].1.is_command == false,
            r.endpoints@[1].0@ == "ledger.balance"@ && r.endpoints@[1].1.is_command == false,
            r.endpoints@[2].0@ == "ledger.send"@ && r.endpoints@[2].1.is_command == true,
            r.endpoints@[3].0@ == "ledger.transactions"@ && r.endpoints@[3].1.is_command == false,
            r.endpoints@[4].0@ == "ledger.list"@ && r.endpoints@[4].1.is_command == false,
            r.endpoints@[5].0@ == "idstore.store"@ && r.endpoints@[5].1.is_command == true,
            r.endpoints@[6].0@ == "idstore.getFromRecallPhrase"@ && r.endpoints@[6].1.is_command == true,
            r.endpoints@[7].0@ == "idstore.getFromAddress"@ && r.endpoints@[7].1.is_command == true,
            *final(self) == *old(self),
    {
        let mut endpoints: Vec<(String, EndpointInfo)> = Vec::new();
        endpoints.push(("ledger.info".to_owned(), EndpointInfo { is_command: false }));
        endpoints.push(("ledger.balance".to_owned(), EndpointInfo { is_command: false }));
        endpoints.push(("ledger.send".to_owned(), EndpointInfo { is_command: true }));
        endpoints.push(("ledger.transactions".to_owned(), EndpointInfo { is_command: false }));
        endpoints.push(("ledger.list".to_owned(), EndpointInfo { is_command: false }));
        endpoints.push(("idstore.store".to_owned(), EndpointInfo { is_command: true }));
        endpoints.push(("idstore.getFromRecallPhrase".to_owned(), EndpointInfo { is_command: true }));
        endpoints.push(("idstore.getFromAddress".to_owned(), EndpointInfo { is_command: true }));
        proof {
            reveal_strlit("ledger.info");
            reveal_strlit("ledger.balance");
            reveal_strlit("ledger.send");
            reveal_strlit("ledger.transactions");
            reveal_strlit("ledger.list");
            reveal_strlit("idstore.store");
            reveal_strlit("idstore.getFromRecallPhrase");
            reveal_strlit("idstore.getFromAddress");
        }
        AbciInit { endpoints }
    }

    /// Nothing to do when the chain starts.
    pub fn init_chain(&mut self) -> (r: Result<(), LedgerError>)
        ensures
            r is Ok,
            *final(self) == *old(self),
    {
        Ok(())
    }

    /// Takes the block's time, when the host gives one, for the transactions of the block.
    pub fn begin_block(&mut self, info: AbciBlock) -> (r: Result<(), LedgerError>)
        ensures
            r is Ok,
            final(self).wf() == old(self).wf(),
            info.time matches Some(t) ==> final(self).storage_spec().time_spec() == t,
            info.time is None ==> final(self).storage_spec() == old(self).storage_spec(),
            final(self).storage_spec().balances_model() == old(self).storage_spec().balances_model(),
            final(self).storage_spec().log() == old(self).storage_spec().log(),
            final(self).storage_spec().height_spec() == old(self).storage_spec().height_spec(),
            final(self).storage_spec().latest_tid_spec() == old(self).storage_spec().latest_tid_spec(),
            final(self).storage_spec().symbols_model() == old(self).storage_spec().symbols_model(),
            final(self).storage_spec().identities_model() == old(self).storage_spec().identities_model(),
            final(self).storage_spec().hash_spec() == old(self).storage_spec().hash_spec(),
            info.time is None ==> final(self).storage_spec().time_spec() == old(self).storage_spec().time_spec(),
    {
        if let Some(t) = info.time {
            self.storage.set_time(t);
        }
        Ok(())
    }

    /// The height and root hash of the last commit.
    pub fn abci_info(&self) -> (r: AbciInfo)
        ensures
            r.height == self.storage_spec().height_spec(),
            r.hash@ == self.storage_spec().hash_spec(),
    {
        AbciInfo { height: self.storage.get_height(), hash: self.storage.hash() }
    }

    /// Ends the block; see `LedgerStorage::commit`.
    pub fn commit(&mut self) -> (r: AbciCommitInfo)
        requires
            old(self).wf(),
            old(self).storage_spec().height_spec() < 0xffff_ffff,
        ensures
            final(self).wf(),
            final(self).storage_spec().height_spec() == old(self).storage_spec().height_spec() + 1,
            final(self).storage_spec().hash_spec() == root_of(final(self).storage_spec().state_bytes()),
            r.retain_height == 0,
            r.hash@ == final(self).storage_spec().hash_spec(),
            final(self).storage_spec().latest_tid_spec() == final(self).storage_spec().height_spec()
                * crate::storage::BLOCK_SPAN,
            final(self).storage_spec().balances_model() == old(self).storage_spec().balances_model(),
            final(self).storage_spec().log() == old(self).storage_spec().log(),
            final(self).storage_spec().symbols_model() == old(self).storage_spec().symbols_model(),
            final(self).storage_spec().identities_model() == old(self).storage_spec().identities_model(),
            final(self).storage_spec().time_spec() == old(self).storage_spec().time_spec(),
    {
        self.storage.commit()
    }

    /// Stores a credential for a public-key address under a fresh recall
    /// phrase. Attempt `k` (one to eight) takes its entropy from `draws[k - 1]`;
    /// the first attempt whose phrase no record uses wins.
    pub fn store_with_entropy(&mut self, args: StoreArgs, draws: &Vec<Vec<u8>>) -> (r: Result<
        StoreReturns,
        LedgerError,
    >)
        requires
            old(self).wf(),
            draws@.len() == 8,
            forall|i: int| 0 <= i < 8 ==> (#[trigger] draws@[i])@.len() == 6,
        ensures
            final(self).wf(),
            (r is Err && r->Err_0 is InvalidAddress) <==> !is_public_key_address(args.address@),
            (r is Err && r->Err_0 is InvalidCredentialId) <==> is_public_key_address(args.address@)
                && !(16 <= args.cred_id@.len() <= 1023),
            is_public_key_address(args.address@) && 16 <= args.cred_id@.len() <= 1023 ==> match first_free(
                old(self).storage_spec().identities_model(),
                draws_view(draws@),
                1,
            ) {
                Some(k) => r is Ok && phrase_view(r->Ok_0.0@) == attempt_phrase(draws_view(draws@), k)
                    && r->Ok_0.0@.len() == attempt_words(k)
                    && final(self).storage_spec().identities_model() == old(self).storage_spec().identities_model().push(
                    (attempt_phrase(draws_view(draws@), k), args.address@, args.cred_id@),
                ),
                None => r is Err && r->Err_0 is RecallPhraseGenerationFailed,
            },
            r is Err ==> final(self).storage_spec() == old(self).storage_spec(),
            final(self).storage_spec().balances_model() == old(self).storage_spec().balances_model(),
            final(self).storage_spec().symbols_model() == old(self).storage_spec().symbols_model(),
            final(self).storage_spec().log() == old(self).storage_spec().log(),
            final(self).storage_spec().height_spec() == old(self).storage_spec().height_spec(),
            final(self).storage_spec().latest_tid_spec() == old(self).storage_spec().latest_tid_spec(),
            final(self).storage_spec().time_spec() == old(self).storage_spec().time_spec(),
            final(self).storage_spec().hash_spec() == old(self).storage_spec().hash_spec(),
    {
        let StoreArgs { address, cred_id } = args;
        if !address.is_public_key() {
            return Err(LedgerError::InvalidAddress);
        }
        if cred_id.len() < 16 || cred_id.len() > 1023 {
            return Err(LedgerError::InvalidCredentialId);
        }
        let ghost ids = self.storage.identities_model();
        let ghost dv = draws_view(draws@);
        let mut k: usize = 1;
        while k <= 8
            invariant
                1 <= k <= 9,
                draws@.len() == 8,
                forall|i: int| 0 <= i < 8 ==> (#[trigger] draws@[i])@.len() == 6,
                dv == draws_view(draws@),
                *self == *old(self),
                self.wf(),
                address@ == args.address@,
                cred_id@ == args.cred_id@,
                is_public_key_address(args.address@),
                16 <= args.cred_id@.len() <= 1023,
                ids == self.storage.identities_model(),
                first_free(ids, dv, 1) == first_free(ids, dv, k as nat),
            decreases 9 - k,
        {
            let phrase = attempt(k, &draws[k - 1]);
            proof {
                assert(dv[k - 1] == draws@[k - 1]@);
                assert(phrase_view(phrase@) == crate::idstore::attempt_phrase(dv, k as nat));
            }
            if self.storage.get_from_recall_phrase(&phrase).is_err() {
                proof {
                    lemma_first_free_unused(ids, dv, 1);
                }
                let kept = copy_phrase(&phrase);
                self.storage.store(phrase, address, cred_id);
                return Ok(StoreReturns(kept));
            }
            k = k + 1;
        }
        Err(LedgerError::RecallPhraseGenerationFailed)
    }

    /// Stores a credential under a recall phrase drawn from fresh random entropy.
    /// On a store without records every attempt is free, so the first succeeds.
    pub fn store(&mut self, args: StoreArgs) -> (r: Result<StoreReturns, LedgerError>)
        requires
            old(self).wf(),
        ensures
            final(self).wf(),
            (r is Err && r->Err_0 is InvalidAddress) <==> !is_public_key_address(args.address@),
            (r is Err && r->Err_0 is InvalidCredentialId) <==> is_public_key_address(args.address@)
                && !(16 <= args.cred_id@.len() <= 1023),
            is_public_key_address(args.address@) && 16 <= args.cred_id@.len() <= 1023 ==> (r is Ok || (
            r is Err && r->Err_0 is RecallPhraseGenerationFailed)),
            is_public_key_address(args.address@) && 16 <= args.cred_id@.len() <= 1023 && old(
                self,
            ).storage_spec().identities_model().len() == 0 ==> r is Ok && r->Ok_0.0@.len() == 2,
            r is Ok ==> 2 <= r->Ok_0.0@.len() <= 5 && last_cred(
                old(self).storage_spec().identities_model(),
                Some(phrase_view(r->Ok_0.0@)),
                None,
            ) is None && final(self).storage_spec().identities_model() == old(self).storage_spec().identities_model().push(
                (phrase_view(r->Ok_0.0@), args.address@, args.cred_id@),
            ),
            r is Err ==> final(self).storage_spec() == old(self).storage_spec(),
            final(self).storage_spec().balances_model() == old(self).storage_spec().balances_model(),
            final(self).storage_spec().symbols_model() == old(self).storage_spec().symbols_model(),
            final(self).storage_spec().log() == old(self).storage_spec().log(),
            final(self).storage_spec().height_spec() == old(self).storage_spec().height_spec(),
            final(self).storage_spec().latest_tid_spec() == old(self).storage_spec().latest_tid_spec(),
            final(self).storage_spec().time_spec() == old(self).storage_spec().time_spec(),
            final(self).storage_spec().hash_spec() == old(self).storage_spec().hash_spec(),
    {
        let mut draws: Vec<Vec<u8>> = Vec::new();
        let mut i: usize = 0;
        while i < 8
            invariant
                i <= 8,
                draws@.len() == i,
                forall|j: int| 0 <= j < i ==> (#[trigger] draws@[j])@.len() == 6,
            decreases 8 - i,
        {
            draws.push(generate_entropy(6));
            i = i + 1;
        }
        let ghost ids = self.storage_spec().identities_model();
        let ghost dv = draws_view(draws@);
        let ghost pk = is_public_key_address(args.address@);
        let ghost len_ok = 16 <= args.cred_id@.len() <= 1023;
        let r = self.store_with_entropy(args, &draws);
        proof {
            lemma_first_free_unused(ids, dv, 1);
            if ids.len() == 0 {
                assert(last_cred(ids, Some(attempt_phrase(dv, 1)), None) is None);
                assert(first_free(ids, dv, 1) == Some(1nat));
            }
        }
        r
    }

    /// The credential stored under a recall phrase.
    pub fn get_from_recall_phrase(&self, phrase: Vec<String>) -> (r: Result<GetReturns, LedgerError>)
        ensures
            match last_cred(self.storage_spec().identities_model(), Some(phrase_view(phrase@)), None) {
                Some(c) => r is Ok && r->Ok_0.0@ == c,
                None => r is Err && r->Err_0 is NotFound,
            },
    {
        match self.storage.get_from_recall_phrase(&phrase) {
            Ok(c) => Ok(GetReturns(c)),
            Err(e) => Err(e),
        }
    }

    /// The credential last stored for an address.
    pub fn get_from_address(&self, address: Address) -> (r: Result<GetReturns, LedgerError>)
        ensures
            match last_cred(self.storage_spec().identities_model(), None, Some(address@)) {
                Some(c) => r is Ok && r->Ok_0.0@ == c,
                None => r is Err && r->Err_0 is NotFound,
            },
    {
        match self.storage.get_from_address(&address) {
            Ok(c) => Ok(GetReturns(c)),
            Err(e) => Err(e),
        }
    }

    /// The ledger's state.
    pub fn storage(&self) -> (r: &LedgerStorage)
        ensures
            *r == self.storage_spec(),
    {
        &self.storage
    }

    /// The height of the last commit.
    pub fn height(&self) -> (r: u64)
        ensures
            r == self.storage_spec().height_spec(),
    {
        self.storage.get_height()
    }
}

} // verus!
