use many_ledger::balances::BalanceEntry;
use many_ledger::error::LedgerError;
use many_ledger::list::{CborRange, ListArgs, RangeBound, SortOrder, TransactionFilter, VecOrSingle};
use many_ledger::module::{
    AbciBlock, BalanceArgs, GetReturns, InitialStateJson, LedgerModuleImpl, SendArgs, StoreArgs,
};
use many_ledger::storage::{SymbolEntry, HEIGHT_EVENTID_SHIFT};
use many_ledger::transaction::Transaction;
use many_ledger::types::{Address, TokenAmount, TransactionKind};

fn account(tag: u8) -> Address {
    let mut b = vec![1u8];
    b.extend(std::iter::repeat(tag).take(28));
    Address::new(b)
}

fn symbol_address() -> Address {
    let mut b = vec![0x80u8];
    b.extend(std::iter::repeat(0x5a).take(28));
    Address::new(b)
}

fn genesis(hash: Option<String>) -> Result<LedgerModuleImpl, LedgerError> {
    let state = InitialStateJson {
        initial: vec![BalanceEntry {
            account: account(0xa),
            symbol: symbol_address(),
            amount: TokenAmount::from_u64(1000),
        }],
        symbols: vec![SymbolEntry { address: symbol_address(), name: "FBT".to_string() }],
        hash,
    };
    LedgerModuleImpl::new(Some(state), false)
}

fn balance_of(m: &LedgerModuleImpl, who: &Address) -> Vec<u8> {
    let r = m.balance(
        who,
        BalanceArgs { account: Some(who.clone()), symbols: Some(vec![symbol_address()]) },
    );
    match r.balances.first() {
        Some((_, a)) => a.to_vec(),
        None => vec![0],
    }
}

fn amount_bytes(v: u64) -> Vec<u8> {
    TokenAmount::from_u64(v).to_vec()
}

fn all() -> ListArgs {
    ListArgs { count: None, order: None, filter: None }
}

fn public_key_address() -> Address {
    account(0x33)
}

fn same_entropy() -> Vec<Vec<u8>> {
    vec![vec![1u8; 6]; 8]
}

#[test]
fn idstore_store() {
    let address = public_key_address();
    let cred_id = vec![1u8; 16];
    let mut module_impl = LedgerModuleImpl::new(None, false).unwrap();
    for i in 2..=5 {
        let result = module_impl.store_with_entropy(
            StoreArgs { address: address.clone(), cred_id: cred_id.clone() },
            &same_entropy(),
        );
        assert!(result.is_ok());
        let recall_phrase = result.unwrap().0;
        assert_eq!(recall_phrase.len(), i);
    }
    let result = module_impl.store_with_entropy(StoreArgs { address, cred_id }, &same_entropy());
    assert!(result.is_err());
    assert_eq!(
        result.err().unwrap().code(),
        LedgerError::RecallPhraseGenerationFailed.code()
    );
}

#[test]
fn idstore_invalid_cred_id() {
    let address = public_key_address();
    let mut module_impl = LedgerModuleImpl::new(None, false).unwrap();
    let result = module_impl.store_with_entropy(
        StoreArgs { address: address.clone(), cred_id: vec![1u8; 15] },
        &same_entropy(),
    );
    assert!(result.is_err());
    assert_eq!(result.err().unwrap().code(), LedgerError::InvalidCredentialId.code());
    let result = module_impl
        .store_with_entropy(StoreArgs { address, cred_id: vec![1u8; 1024] }, &same_entropy());
    assert!(result.is_err());
    assert_eq!(result.err().unwrap().code(), LedgerError::InvalidCredentialId.code());
}

#[test]
fn idstore_get_from_recall_phrase() {
    let address = public_key_address();
    let cred_id = vec![1u8; 16];
    let mut module_impl = LedgerModuleImpl::new(None, false).unwrap();
    let result = module_impl
        .store_with_entropy(StoreArgs { address, cred_id: cred_id.clone() }, &same_entropy());
    assert!(result.is_ok());
    let store_return = result.unwrap();
    let result = module_impl.get_from_recall_phrase(store_return.0);
    assert!(result.is_ok());
    let get_returns: GetReturns = result.unwrap();
    assert_eq!(get_returns.0, cred_id);
}

#[test]
fn idstore_get_from_address() {
    let address = public_key_address();
    let cred_id = vec![1u8; 16];
    let mut module_impl = LedgerModuleImpl::new(None, false).unwrap();
    let result = module_impl.store_with_entropy(
        StoreArgs { address: address.clone(), cred_id: cred_id.clone() },
        &same_entropy(),
    );
    assert!(result.is_ok());
    let result = module_impl.get_from_address(address);
    assert!(result.is_ok());
    assert_eq!(result.unwrap().0, cred_id);
}

#[test]
fn idstore_cred_id_of_sixteen_bytes_is_accepted() {
    let mut m = LedgerModuleImpl::new(None, false).unwrap();
    let r = m.store_with_entropy(
        StoreArgs { address: public_key_address(), cred_id: vec![7u8; 16] },
        &same_entropy(),
    );
    assert!(r.is_ok());
    let r = m.store_with_entropy(
        StoreArgs { address: public_key_address(), cred_id: vec![7u8; 1023] },
        &same_entropy(),
    );
    assert!(r.is_ok());
}

#[test]
fn idstore_rejects_address_that_is_not_a_public_key() {
    let mut m = LedgerModuleImpl::new(None, false).unwrap();
    let r = m.store_with_entropy(
        StoreArgs { address: symbol_address(), cred_id: vec![7u8; 16] },
        &same_entropy(),
    );
    assert_eq!(r.err().unwrap().code(), LedgerError::InvalidAddress.code());
    let r = m.store(StoreArgs { address: Address::new(vec![0]), cred_id: vec![7u8; 16] });
    assert_eq!(r.err().unwrap().code(), LedgerError::InvalidAddress.code());
}

#[test]
fn idstore_lookups_miss() {
    let m = LedgerModuleImpl::new(None, false).unwrap();
    let r = m.get_from_address(public_key_address());
    assert_eq!(r.err().unwrap().code(), LedgerError::NotFound.code());
    let r = m.get_from_recall_phrase(vec!["abandon".to_string(), "about".to_string()]);
    assert_eq!(r.err().unwrap().code(), LedgerError::NotFound.code());
}

#[test]
fn idstore_store_with_random_entropy() {
    let mut m = LedgerModuleImpl::new(None, false).unwrap();
    let r = m.store(StoreArgs { address: public_key_address(), cred_id: vec![9u8; 32] });
    let phrase = r.unwrap().0;
    assert_eq!(phrase.len(), 2);
    assert_eq!(m.get_from_recall_phrase(phrase).unwrap().0, vec![9u8; 32]);
}

#[test]
fn recall_phrase_matches_the_english_list() {
    let words = many_ledger::idstore::generate_recall_phrase::<12, 16, 4>(&vec![0u8; 16]);
    let mut expected = vec!["abandon".to_string(); 11];
    expected.push("about".to_string());
    assert_eq!(words, expected);
    let two = many_ledger::idstore::generate_recall_phrase::<2, 2, 6>(&vec![1u8; 6]);
    assert_eq!(two.len(), 2);
    assert_eq!(many_ledger::idstore::generate_entropy(5).len(), 5);
}

#[test]
fn genesis_hash_check() {
    let first = genesis(None).unwrap();
    let computed = hex::encode(first.abci_info().hash);
    assert!(genesis(Some(computed.clone())).is_ok());
    let again = genesis(Some(computed.clone())).unwrap();
    assert_eq!(hex::encode(again.abci_info().hash), computed);
    let bad = genesis(Some("deadbeef".to_string()));
    match bad {
        Err(LedgerError::InvalidInitialState { expected, actual }) => {
            assert_eq!(expected, "deadbeef");
            assert_eq!(actual, computed);
        }
        _ => panic!("expected an invalid initial state"),
    }
}

#[test]
fn authorized_send() {
    let mut m = genesis(None).unwrap();
    let a = account(0xa);
    let b = account(0xb);
    let r = m.send(
        &a,
        SendArgs { from: None, to: b.clone(), amount: TokenAmount::from_u64(100), symbol: symbol_address() },
    );
    assert!(r.is_ok());
    assert_eq!(balance_of(&m, &a), amount_bytes(900));
    assert_eq!(balance_of(&m, &b), amount_bytes(100));
    assert_eq!(m.transactions().nb_transactions, 1);
    let listed = m.list(all()).ok().unwrap();
    assert_eq!(listed.nb_transactions, 1);
    assert_eq!(listed.transactions.len(), 1);
    let t = &listed.transactions[0];
    assert!(t.kind() == TransactionKind::Send);
    assert_eq!(t.id.0 >> HEIGHT_EVENTID_SHIFT, m.height());
    assert_eq!(t.symbol(), "FBT");
}

#[test]
fn unauthorized_send() {
    let mut m = genesis(None).unwrap();
    let a = account(0xa);
    let b = account(0xb);
    let c = account(0xc);
    let r = m.send(
        &a,
        SendArgs { from: Some(b.clone()), to: c.clone(), amount: TokenAmount::from_u64(1), symbol: symbol_address() },
    );
    assert_eq!(r.err().unwrap().code(), LedgerError::Unauthorized.code());
    assert_eq!(balance_of(&m, &a), amount_bytes(1000));
    assert_eq!(balance_of(&m, &c), amount_bytes(0));
    assert_eq!(m.transactions().nb_transactions, 0);
}

#[test]
fn insufficient_funds() {
    let mut m = genesis(None).unwrap();
    let a = account(0xa);
    let b = account(0xb);
    let r = m.send(
        &a,
        SendArgs { from: None, to: b.clone(), amount: TokenAmount::from_u64(10_000), symbol: symbol_address() },
    );
    assert_eq!(r.err().unwrap().code(), LedgerError::InsufficientFunds.code());
    assert_eq!(balance_of(&m, &a), amount_bytes(1000));
    assert_eq!(balance_of(&m, &b), amount_bytes(0));
    assert_eq!(m.transactions().nb_transactions, 0);
}

#[test]
fn unknown_symbol() {
    let mut m = genesis(None).unwrap();
    let a = account(0xa);
    let r = m.send(
        &a,
        SendArgs { from: None, to: account(0xb), amount: TokenAmount::from_u64(1), symbol: account(0xe) },
    );
    assert_eq!(r.err().unwrap().code(), LedgerError::UnknownSymbol.code());
}

#[test]
fn sends_conserve_supply() {
    let mut m = genesis(None).unwrap();
    let a = account(0xa);
    let b = account(0xb);
    let c = account(0xc);
    let send = |m: &mut LedgerModuleImpl, s: &Address, to: &Address, v: u64| {
        m.send(s, SendArgs { from: None, to: to.clone(), amount: TokenAmount::from_u64(v), symbol: symbol_address() })
    };
    assert!(send(&mut m, &a, &b, 300).is_ok());
    assert!(send(&mut m, &b, &c, 120).is_ok());
    assert!(send(&mut m, &c, &a, 20).is_ok());
    assert!(send(&mut m, &a, &a, 5).is_ok());
    let mut total = TokenAmount::zero();
    for who in [&a, &b, &c] {
        total.add_assign(TokenAmount::from_bytes(balance_of(&m, who)));
    }
    assert_eq!(total.to_vec(), amount_bytes(1000));
    assert_eq!(balance_of(&m, &a), amount_bytes(720));
    assert_eq!(balance_of(&m, &b), amount_bytes(180));
    assert_eq!(balance_of(&m, &c), amount_bytes(100));
}

#[test]
fn whole_balance_sent_leaves_no_entry() {
    let mut m = genesis(None).unwrap();
    let a = account(0xa);
    let r = m.send(
        &a,
        SendArgs { from: None, to: account(0xb), amount: TokenAmount::from_u64(1000), symbol: symbol_address() },
    );
    assert!(r.is_ok());
    let all_symbols = m.balance(&a, BalanceArgs { account: None, symbols: None });
    assert_eq!(all_symbols.balances.len(), 0);
}

#[test]
fn ids_carry_the_block_height() {
    let mut m = genesis(None).unwrap();
    let a = account(0xa);
    let b = account(0xb);
    let send = |m: &mut LedgerModuleImpl| {
        m.send(&a, SendArgs { from: None, to: b.clone(), amount: TokenAmount::from_u64(1), symbol: symbol_address() })
    };
    assert!(send(&mut m).is_ok());
    let info = m.commit();
    assert_eq!(info.retain_height, 0);
    assert_eq!(m.height(), 1);
    assert!(send(&mut m).is_ok());
    assert!(send(&mut m).is_ok());
    m.commit();
    m.commit();
    assert!(send(&mut m).is_ok());
    let listed = m.list(all()).ok().unwrap();
    let ids: Vec<u64> = listed.transactions.iter().map(|t| t.id.0).collect();
    assert_eq!(ids, vec![1, (1u64 << 32) + 1, (1u64 << 32) + 2, (3u64 << 32) + 1]);
    let heights: Vec<u64> = ids.iter().map(|i| i >> HEIGHT_EVENTID_SHIFT).collect();
    assert_eq!(heights, vec![0, 1, 1, 3]);
}

#[test]
fn independent_nodes_agree_on_hashes() {
    let run = || {
        let mut m = genesis(None).unwrap();
        let a = account(0xa);
        let mut hashes = Vec::new();
        assert!(m.begin_block(AbciBlock { time: Some(1_650_000_000) }).is_ok());
        assert!(m
            .send(&a, SendArgs { from: None, to: account(0xb), amount: TokenAmount::from_u64(7), symbol: symbol_address() })
            .is_ok());
        hashes.push(m.commit().hash);
        hashes.push(m.commit().hash);
        hashes
    };
    let first = run();
    let second = run();
    assert_eq!(first, second);
    assert_ne!(first[0], first[1]);
    assert_eq!(first[0].len(), 8);
}

#[test]
fn block_time_stamps_transactions() {
    let mut m = genesis(None).unwrap();
    assert!(m.begin_block(AbciBlock { time: Some(1234) }).is_ok());
    assert!(m
        .send(&account(0xa), SendArgs { from: None, to: account(0xb), amount: TokenAmount::from_u64(1), symbol: symbol_address() })
        .is_ok());
    let listed = m.list(all()).ok().unwrap();
    assert_eq!(listed.transactions[0].time.0, 1234);
}

fn ledger_with_three_sends() -> LedgerModuleImpl {
    let mut m = genesis(None).unwrap();
    let a = account(0xa);
    for (t, to, v) in [(10u64, 0xbu8, 1u64), (20, 0xc, 2), (30, 0xb, 3)] {
        assert!(m.begin_block(AbciBlock { time: Some(t) }).is_ok());
        assert!(m
            .send(&a, SendArgs { from: None, to: account(to), amount: TokenAmount::from_u64(v), symbol: symbol_address() })
            .is_ok());
    }
    m
}

fn filter() -> TransactionFilter {
    TransactionFilter { account: None, kind: None, symbol: None, id_range: None, date_range: None }
}

#[test]
fn list_orders_and_counts() {
    let m = ledger_with_three_sends();
    let asc = m.list(all()).ok().unwrap();
    let ids: Vec<u64> = asc.transactions.iter().map(|t| t.id.0).collect();
    assert_eq!(ids, vec![1, 2, 3]);
    let desc = m
        .list(ListArgs { count: Some(2), order: Some(SortOrder::Descending), filter: None })
        .ok()
        .unwrap();
    let ids: Vec<u64> = desc.transactions.iter().map(|t| t.id.0).collect();
    assert_eq!(ids, vec![3, 2]);
    assert_eq!(desc.nb_transactions, 3);
    let none = m.list(ListArgs { count: Some(0), order: None, filter: None }).ok().unwrap();
    assert_eq!(none.transactions.len(), 0);
    let many = m.list(ListArgs { count: Some(100_000), order: None, filter: None }).ok().unwrap();
    assert_eq!(many.transactions.len(), 3);
}

#[test]
fn list_filters() {
    let m = ledger_with_three_sends();
    let mut f = filter();
    f.account = Some(VecOrSingle::from_vec(vec![account(0xc)]));
    let r = m.list(ListArgs { count: None, order: None, filter: Some(f) }).ok().unwrap();
    let ids: Vec<u64> = r.transactions.iter().map(|t| t.id.0).collect();
    assert_eq!(ids, vec![2]);

    let mut f = filter();
    f.kind = Some(VecOrSingle::from_vec(vec![TransactionKind::Mint, TransactionKind::Burn]));
    let r = m.list(ListArgs { count: None, order: None, filter: Some(f) }).ok().unwrap();
    assert_eq!(r.transactions.len(), 0);

    let mut f = filter();
    f.symbol = Some(VecOrSingle::from_vec(vec!["FBT".to_string()]));
    let r = m.list(ListArgs { count: None, order: None, filter: Some(f) }).ok().unwrap();
    assert_eq!(r.transactions.len(), 3);

    let mut f = filter();
    f.date_range = Some(CborRange { start: RangeBound::Included(20), end: RangeBound::Unbounded });
    let r = m.list(ListArgs { count: None, order: None, filter: Some(f) }).ok().unwrap();
    let ids: Vec<u64> = r.transactions.iter().map(|t| t.id.0).collect();
    assert_eq!(ids, vec![2, 3]);

    let mut f = filter();
    f.id_range = Some(CborRange { start: RangeBound::Excluded(1), end: RangeBound::Excluded(3) });
    let r = m.list(ListArgs { count: None, order: None, filter: Some(f) }).ok().unwrap();
    let ids: Vec<u64> = r.transactions.iter().map(|t| t.id.0).collect();
    assert_eq!(ids, vec![2]);
}

#[test]
fn info_and_endpoints() {
    let mut m = genesis(None).unwrap();
    let info = m.info(&account(0xa));
    assert_eq!(info.symbols.len(), 1);
    assert_eq!(info.symbols[0].bytes, symbol_address().bytes);
    assert_eq!(info.local_names[0].1, "FBT");
    assert_eq!(info.hash, m.abci_info().hash);
    let init = m.init();
    let commands: Vec<&str> = init
        .endpoints
        .iter()
        .filter(|(_, e)| e.is_command)
        .map(|(n, _)| n.as_str())
        .collect();
    assert_eq!(
        commands,
        vec!["ledger.send", "idstore.store", "idstore.getFromRecallPhrase", "idstore.getFromAddress"]
    );
    assert_eq!(init.endpoints.len(), 8);
    let names: Vec<&str> = init.endpoints.iter().map(|(n, _)| n.as_str()).collect();
    assert_eq!(
        names,
        vec![
            "ledger.info",
            "ledger.balance",
            "ledger.send",
            "ledger.transactions",
            "ledger.list",
            "idstore.store",
            "idstore.getFromRecallPhrase",
            "idstore.getFromAddress"
        ]
    );
    assert!(m.init_chain().is_ok());
}

#[test]
fn error_codes_are_distinct() {
    let errors = vec![
        LedgerError::Unauthorized,
        LedgerError::InvalidInitialState { expected: String::new(), actual: String::new() },
        LedgerError::UnknownSymbol,
        LedgerError::InsufficientFunds,
        LedgerError::InvalidAddress,
        LedgerError::InvalidCredentialId,
        LedgerError::RecallPhraseGenerationFailed,
        LedgerError::NotFound,
        LedgerError::DeserializationError,
        LedgerError::Unknown,
    ];
    let mut codes: Vec<i64> = errors.iter().map(|e| e.code()).collect();
    codes.sort();
    codes.dedup();
    assert_eq!(codes.len(), 10);
}

#[test]
fn empty_ledger_starts_at_height_zero() {
    let m = LedgerModuleImpl::new(None, false).unwrap();
    assert_eq!(m.abci_info().height, 0);
    assert_eq!(m.transactions().nb_transactions, 0);
    assert_eq!(m.list(all()).ok().unwrap().transactions.len(), 0);
}

#[test]
fn list_fails_on_undecodable_entries_only_when_reached() {
    let t = Transaction::decode(&vec![0xa3, 0x00]);
    assert!(t.is_err());
}
