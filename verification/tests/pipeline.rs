use chain_indexer::events::{decode, Event, RawLog, SelectorTable};
use chain_indexer::indexer::{
    plan_iteration, run_iteration, scan_logs, IndexerState, RangeDecision,
};
use chain_indexer::ledger::Ledger;
use chain_indexer::num::{Amount, Balance};

fn wallet_a() -> Vec<u8> {
    vec![b'A'; 20]
}

fn user_topic(wallet: &[u8]) -> Vec<u8> {
    let mut t = vec![0u8; 12];
    t.extend_from_slice(wallet);
    t
}

fn pid_topic(pid: u8) -> Vec<u8> {
    let mut t = vec![0u8; 31];
    t.push(pid);
    t
}

fn word(value: u8) -> Vec<u8> {
    let mut w = vec![0u8; 31];
    w.push(value);
    w
}

fn deposit_log(table: &SelectorTable, wallet: &[u8], pid: u8, amount: u8, block: u64) -> RawLog {
    RawLog {
        address: vec![0x11; 20],
        topics: vec![table.deposit.clone(), user_topic(wallet), pid_topic(pid)],
        data: word(amount),
        block_number: block,
    }
}

fn withdraw_log(
    table: &SelectorTable,
    wallet: &[u8],
    pid: u8,
    amount: u8,
    tax: u8,
    block: u64,
) -> RawLog {
    let mut data = word(amount);
    data.extend_from_slice(&word(tax));
    RawLog {
        address: vec![0x11; 20],
        topics: vec![table.withdraw.clone(), user_topic(wallet), pid_topic(pid)],
        data,
        block_number: block,
    }
}

fn balance_equals_u64(ledger: &Ledger, wallet: &Vec<u8>, expected: u64) -> bool {
    match ledger.balance_of(wallet) {
        Some(b) => b.same_value(&Balance::credit(Amount::from_u64(expected))),
        None => false,
    }
}

#[test]
fn selectors_are_real_keccak_digests() {
    let table = SelectorTable::standard();
    let dep = alloy::primitives::keccak256(b"Deposit(address,uint256,uint256)");
    let wdr = alloy::primitives::keccak256(b"Withdraw(address,uint256,uint256,uint256)");
    assert_eq!(table.deposit, dep.to_vec());
    assert_eq!(table.withdraw, wdr.to_vec());
    assert_eq!(table.deposit.len(), 32);
    assert_ne!(table.deposit, table.withdraw);
}

#[test]
fn decode_deposit_fields() {
    let table = SelectorTable::standard();
    let log = deposit_log(&table, &wallet_a(), 1, 50, 103);
    match decode(&table, &log) {
        Ok(Event::Deposit { user, pid, amount }) => {
            assert_eq!(user, wallet_a());
            assert_eq!(pid, pid_topic(1));
            assert_eq!(amount.to_le_bytes(), vec![50]);
        }
        _ => panic!("expected a deposit"),
    }
}

#[test]
fn decode_withdraw_fields() {
    let table = SelectorTable::standard();
    let log = withdraw_log(&table, &wallet_a(), 2, 30, 5, 104);
    match decode(&table, &log) {
        Ok(Event::Withdraw { user, pid, amount, tax }) => {
            assert_eq!(user, wallet_a());
            assert_eq!(pid, pid_topic(2));
            assert_eq!(amount.to_le_bytes(), vec![30]);
            assert_eq!(tax.to_le_bytes(), vec![5]);
        }
        _ => panic!("expected a withdrawal"),
    }
}

#[test]
fn decode_unknown_selector_is_not_an_error() {
    let table = SelectorTable::standard();
    let log = RawLog {
        address: vec![0x11; 20],
        topics: vec![vec![0xEE; 32]],
        data: vec![],
        block_number: 7,
    };
    match decode(&table, &log) {
        Ok(Event::Unknown) => {}
        _ => panic!("an unrecognized selector must decode to Unknown"),
    }
}

#[test]
fn decode_empty_topics_is_unknown() {
    let table = SelectorTable::standard();
    let log = RawLog {
        address: vec![0x11; 20],
        topics: vec![],
        data: vec![1, 2, 3],
        block_number: 7,
    };
    assert!(matches!(decode(&table, &log), Ok(Event::Unknown)));
}

#[test]
fn decode_malformed_deposit_is_an_error() {
    let table = SelectorTable::standard();
    let mut log = deposit_log(&table, &wallet_a(), 1, 50, 103);
    log.data.pop(); // 31 data bytes: wrong shape for a deposit
    assert!(decode(&table, &log).is_err());
}

#[test]
fn decode_malformed_withdraw_is_an_error() {
    let table = SelectorTable::standard();
    let mut log = withdraw_log(&table, &wallet_a(), 1, 30, 5, 103);
    log.topics.pop(); // missing pid topic
    assert!(decode(&table, &log).is_err());
}

#[test]
fn plan_scans_new_blocks() {
    match plan_iteration(105, 100) {
        RangeDecision::Scan { from, to } => {
            assert_eq!(from, 101);
            assert_eq!(to, 105);
        }
        _ => panic!("new blocks must be scanned"),
    }
}

#[test]
fn plan_skips_when_no_new_blocks() {
    assert!(matches!(plan_iteration(7, 7), RangeDecision::Skip));
}

#[test]
fn plan_resets_when_chain_shrank() {
    assert!(matches!(plan_iteration(10, 500), RangeDecision::Reset));
}

#[test]
fn ledger_creates_then_accumulates() {
    let mut ledger = Ledger::new();
    let w = wallet_a();
    assert!(ledger.balance_of(&w).is_none());
    ledger.apply_delta(w.clone(), &Balance::credit(Amount::from_u64(50)));
    assert!(balance_equals_u64(&ledger, &w, 50));
    ledger.apply_delta(w.clone(), &Balance::debit(Amount::from_u64(20)));
    assert!(balance_equals_u64(&ledger, &w, 30));
}

#[test]
fn withdraw_applies_amount_not_tax() {
    let table = SelectorTable::standard();
    let mut ledger = Ledger::new();
    let w = wallet_a();
    let logs = vec![
        deposit_log(&table, &w, 1, 50, 103),
        withdraw_log(&table, &w, 1, 30, 5, 104),
    ];
    scan_logs(&mut ledger, &table, &logs);
    // 50 - 30; were the tax applied too, this would be 15.
    assert!(balance_equals_u64(&ledger, &w, 20));
}

#[test]
fn unknown_event_causes_no_mutation_in_a_scan() {
    let table = SelectorTable::standard();
    let mut ledger = Ledger::new();
    let w = wallet_a();
    let unknown = RawLog {
        address: vec![0x11; 20],
        topics: vec![vec![0xEE; 32], user_topic(&w)],
        data: word(99),
        block_number: 103,
    };
    let logs = vec![unknown, deposit_log(&table, &w, 1, 50, 103)];
    scan_logs(&mut ledger, &table, &logs);
    assert!(balance_equals_u64(&ledger, &w, 50));
}

#[test]
fn malformed_log_is_skipped_without_aborting_the_batch() {
    let table = SelectorTable::standard();
    let mut ledger = Ledger::new();
    let w = wallet_a();
    let mut broken = deposit_log(&table, &w, 1, 99, 103);
    broken.data.pop();
    let logs = vec![broken, deposit_log(&table, &w, 1, 50, 103)];
    scan_logs(&mut ledger, &table, &logs);
    assert!(balance_equals_u64(&ledger, &w, 50));
}

#[test]
fn scenario_a_deposit_advances_checkpoint() {
    let table = SelectorTable::standard();
    let mut state = IndexerState::new(100);
    let mut ledger = Ledger::new();
    let w = wallet_a();
    let batches = vec![vec![deposit_log(&table, &w, 1, 50, 103)]];
    let decision = run_iteration(&mut state, &mut ledger, &table, 105, &batches);
    assert!(matches!(decision, RangeDecision::Scan { from: 101, to: 105 }));
    assert!(balance_equals_u64(&ledger, &w, 50));
    assert_eq!(state.last_processed_block, 105);
}

#[test]
fn scenario_b_shrunken_chain_resets_and_touches_nothing() {
    let table = SelectorTable::standard();
    let mut state = IndexerState::new(500);
    let mut ledger = Ledger::new();
    let w = wallet_a();
    // Even a pending deposit batch is not applied on a reset iteration.
    let batches = vec![vec![deposit_log(&table, &w, 1, 50, 9)]];
    let decision = run_iteration(&mut state, &mut ledger, &table, 10, &batches);
    assert!(matches!(decision, RangeDecision::Reset));
    assert_eq!(state.last_processed_block, 0);
    assert!(ledger.balance_of(&w).is_none());
}

#[test]
fn skip_iteration_touches_nothing() {
    let table = SelectorTable::standard();
    let mut state = IndexerState::new(105);
    let mut ledger = Ledger::new();
    let w = wallet_a();
    let batches = vec![vec![deposit_log(&table, &w, 1, 50, 103)]];
    let decision = run_iteration(&mut state, &mut ledger, &table, 105, &batches);
    assert!(matches!(decision, RangeDecision::Skip));
    assert_eq!(state.last_processed_block, 105);
    assert!(ledger.balance_of(&w).is_none());
}

#[test]
fn scenario_c_reprocessing_double_counts() {
    // A crash between log application and checkpoint persistence makes the
    // next iteration reprocess the same range: the additive ledger then
    // double-counts. This surfaces the idempotency gap; it must not pass
    // silently as a correct balance.
    let table = SelectorTable::standard();
    let mut ledger = Ledger::new();
    let w = wallet_a();
    let logs = vec![deposit_log(&table, &w, 1, 50, 103)];
    scan_logs(&mut ledger, &table, &logs);
    // The checkpoint write was lost; the same range is scanned again.
    scan_logs(&mut ledger, &table, &logs);
    assert!(balance_equals_u64(&ledger, &w, 100));
}

#[test]
fn multi_contract_batches_apply_in_order() {
    let table = SelectorTable::standard();
    let mut state = IndexerState::new(100);
    let mut ledger = Ledger::new();
    let w = wallet_a();
    let batches = vec![
        vec![deposit_log(&table, &w, 1, 50, 101)],
        vec![],
        vec![deposit_log(&table, &w, 2, 20, 102), withdraw_log(&table, &w, 1, 30, 9, 103)],
    ];
    let decision = run_iteration(&mut state, &mut ledger, &table, 103, &batches);
    assert!(matches!(decision, RangeDecision::Scan { from: 101, to: 103 }));
    assert!(balance_equals_u64(&ledger, &w, 40));
    assert_eq!(state.last_processed_block, 103);
}

#[test]
fn withdraw_without_prior_deposit_goes_negative() {
    let table = SelectorTable::standard();
    let mut ledger = Ledger::new();
    let w = wallet_a();
    let logs = vec![withdraw_log(&table, &w, 1, 30, 5, 104)];
    scan_logs(&mut ledger, &table, &logs);
    let balance = ledger.balance_of(&w).expect("the row is created on first observation");
    assert!(balance.is_negative_value());
    assert!(balance.same_value(&Balance::debit(Amount::from_u64(30))));
}

#[test]
fn deposit_amount_beyond_u64_is_kept_exactly() {
    let table = SelectorTable::standard();
    let w = wallet_a();
    let mut log = deposit_log(&table, &w, 1, 0, 103);
    log.data = vec![0xFF; 32]; // the largest 256-bit word
    match decode(&table, &log) {
        Ok(Event::Deposit { amount, .. }) => {
            assert_eq!(amount.to_le_bytes(), vec![0xFF; 32]);
        }
        _ => panic!("expected a deposit"),
    }
}

#[test]
fn decode_rejects_short_user_topic() {
    let table = SelectorTable::standard();
    let mut log = deposit_log(&table, &wallet_a(), 1, 50, 103);
    log.topics[1].pop(); // a 31-byte topic is no valid indexed address
    assert!(decode(&table, &log).is_err());
}

#[test]
fn distinct_wallets_keep_distinct_balances() {
    let table = SelectorTable::standard();
    let mut ledger = Ledger::new();
    let wa = wallet_a();
    let wb = vec![b'B'; 20];
    let logs = vec![
        deposit_log(&table, &wa, 1, 50, 101),
        deposit_log(&table, &wb, 1, 7, 102),
        withdraw_log(&table, &wa, 1, 20, 3, 103),
    ];
    scan_logs(&mut ledger, &table, &logs);
    assert!(balance_equals_u64(&ledger, &wa, 30));
    assert!(balance_equals_u64(&ledger, &wb, 7));
}

#[test]
fn checkpoint_store_set_and_reset() {
    let mut state = IndexerState::new(41);
    state.set(42);
    assert_eq!(state.last_processed_block, 42);
    state.reset();
    assert_eq!(state.last_processed_block, 0);
}

#[test]
fn config_addresses_keep_their_order() {
    let config = chain_indexer::config::Config {
        database_url: String::from("postgres://localhost/a"),
        MOCK_MANTLE_ADDRESS: String::from("0x01"),
        OLIG_TOKEN_ADDRESS: String::from("0x02"),
        GAMESTORE_ADDRESS: String::from("0x03"),
        VEOLIG_ADDRESS: String::from("0x04"),
        OLIG_VOTER_ADDRESS: String::from("0x05"),
        REGION_FARM_ADDRESS: String::from("0x06"),
        WAR_THEATER_ADDRESS: String::from("0x07"),
        database_schema_url: String::from("postgres://localhost/b"),
        rpc_url: String::from("http://127.0.0.1:8545"),
        port: 8000,
    };
    let addrs = config.contract_addresses();
    assert_eq!(
        addrs,
        vec![
            String::from("0x01"),
            String::from("0x02"),
            String::from("0x03"),
            String::from("0x04"),
            String::from("0x05"),
            String::from("0x06"),
            String::from("0x07"),
        ]
    );
}
