use veritix_token::address::{Address, AddressKind};
use veritix_token::dispute::{get_dispute, open_dispute, resolve_dispute, DisputeRecord, DisputeStatus};
use veritix_token::freeze::{freeze_account, is_frozen};
use veritix_token::ledger::{
    get_escrow, read_balance, receive_balance, write_escrow, ContractError, EscrowRecord, Ledger,
    LedgerParts,
};

fn account(n: u128) -> Address {
    Address { kind: AddressKind::Account, key_hi: n, key_lo: n }
}

fn contract_address() -> Address {
    Address { kind: AddressKind::Contract, key_hi: 1, key_lo: 2 }
}

fn escrow(amount: i128) -> EscrowRecord {
    EscrowRecord { depositor: account(1), beneficiary: account(2), amount, released: false, refunded: false }
}

fn dispute(id: u32, escrow_id: u32, status: DisputeStatus) -> DisputeRecord {
    DisputeRecord { id, escrow_id, claimant: account(1), resolver: account(9), status }
}

fn empty_parts() -> LedgerParts {
    LedgerParts {
        contract: contract_address(),
        balances: Vec::new(),
        escrows: Vec::new(),
        disputes: Vec::new(),
        frozen: Vec::new(),
    }
}

#[test]
fn stored_state_reads_back_the_same() {
    let mut e = Ledger::new(contract_address());
    receive_balance(&mut e, contract_address(), 3_000).unwrap();
    write_escrow(&mut e, 1, escrow(1_000));
    write_escrow(&mut e, 2, escrow(2_000));
    let first = open_dispute(&mut e, account(1), 1, account(9)).unwrap();
    resolve_dispute(&mut e, account(9), first, true).unwrap();
    let second = open_dispute(&mut e, account(2), 2, account(9)).unwrap();
    freeze_account(&mut e, account(5), account(7));
    let _ = e.take_events();

    let mut back = Ledger::from_parts(e.into_parts()).unwrap();
    assert_eq!(back.dispute_count(), 2);
    assert_eq!(get_dispute(&back, first).unwrap().status, DisputeStatus::ResolvedForBeneficiary);
    assert_eq!(get_dispute(&back, second).unwrap().status, DisputeStatus::Open);
    assert!(get_escrow(&back, 1).unwrap().released);
    assert_eq!(read_balance(&back, contract_address()), 2_000);
    assert_eq!(read_balance(&back, account(2)), 1_000);
    assert!(is_frozen(&back, &account(7)));
    assert!(back.events().is_empty());
    // The open-dispute index is rebuilt: escrow 2 still has its open dispute.
    assert_eq!(
        open_dispute(&mut back, account(1), 2, account(9)),
        Err(ContractError::DisputeAlreadyOpen)
    );
    resolve_dispute(&mut back, account(9), second, false).unwrap();
    assert_eq!(read_balance(&back, account(1)), 2_000);
}

#[test]
fn empty_parts_give_an_empty_ledger() {
    let l = Ledger::from_parts(empty_parts()).unwrap();
    assert_eq!(l.dispute_count(), 0);
    assert_eq!(l.current_contract_address(), contract_address());
    assert_eq!(read_balance(&l, account(1)), 0);
}

#[test]
fn duplicate_balance_entries_are_refused() {
    let mut p = empty_parts();
    p.balances = vec![(account(1), 5), (account(2), 6), (account(1), 7)];
    assert!(Ledger::from_parts(p).is_none());
}

#[test]
fn duplicate_escrow_entries_are_refused() {
    let mut p = empty_parts();
    p.escrows = vec![(4, escrow(1)), (4, escrow(2))];
    assert!(Ledger::from_parts(p).is_none());
}

#[test]
fn duplicate_frozen_entries_are_refused() {
    let mut p = empty_parts();
    p.frozen = vec![account(3), account(3)];
    assert!(Ledger::from_parts(p).is_none());
}

#[test]
fn dispute_ids_out_of_sequence_are_refused() {
    let mut p = empty_parts();
    p.disputes = vec![dispute(1, 1, DisputeStatus::Open), dispute(3, 2, DisputeStatus::Open)];
    assert!(Ledger::from_parts(p).is_none());
}

#[test]
fn two_open_disputes_on_one_escrow_are_refused() {
    let mut p = empty_parts();
    p.disputes = vec![dispute(1, 5, DisputeStatus::Open), dispute(2, 5, DisputeStatus::Open)];
    assert!(Ledger::from_parts(p).is_none());
    let mut q = empty_parts();
    q.disputes =
        vec![dispute(1, 5, DisputeStatus::ResolvedForDepositor), dispute(2, 5, DisputeStatus::Open)];
    assert!(Ledger::from_parts(q).is_some());
}
