use veritix_token::address::{Address, AddressKind};
use veritix_token::dispute::{get_dispute, open_dispute, resolve_dispute, DisputeStatus};
use veritix_token::ledger::{
    get_escrow, read_balance, receive_balance, spend_balance, write_escrow, ContractError,
    EscrowRecord, Ledger,
};

fn account(n: u128) -> Address {
    Address { kind: AddressKind::Account, key_hi: 0, key_lo: n }
}

fn contract_address() -> Address {
    Address { kind: AddressKind::Contract, key_hi: 7, key_lo: 7 }
}

fn setup_env() -> Ledger {
    Ledger::new(contract_address())
}

/// Funds a depositor, moves the amount into the contract and records the
/// escrow under `escrow_id`, as creating an escrow does.
fn setup_escrow(e: &mut Ledger, escrow_id: u32, n: u128) -> (Address, Address, u32) {
    let depositor = account(2 * n);
    let beneficiary = account(2 * n + 1);
    let amount = 1_000i128;
    let contract = e.current_contract_address();
    receive_balance(e, depositor, amount).unwrap();
    spend_balance(e, depositor, amount).unwrap();
    receive_balance(e, contract, amount).unwrap();
    write_escrow(
        e,
        escrow_id,
        EscrowRecord { depositor, beneficiary, amount, released: false, refunded: false },
    );
    (depositor, beneficiary, escrow_id)
}

#[test]
fn test_open_dispute_stores_record() {
    let mut e = setup_env();
    let resolver = account(100);
    let (depositor, _beneficiary, escrow_id) = setup_escrow(&mut e, 1, 1);

    let dispute_id = open_dispute(&mut e, depositor, escrow_id, resolver).unwrap();
    let record = get_dispute(&e, dispute_id).unwrap();
    assert_eq!(record.escrow_id, escrow_id);
    assert_eq!(record.claimant, depositor);
    assert_eq!(record.resolver, resolver);
    assert_eq!(record.status, DisputeStatus::Open);
}

#[test]
fn test_resolve_dispute_for_beneficiary() {
    let mut e = setup_env();
    let resolver = account(100);
    let (_depositor, beneficiary, escrow_id) = setup_escrow(&mut e, 1, 1);

    let dispute_id = open_dispute(&mut e, beneficiary, escrow_id, resolver).unwrap();
    resolve_dispute(&mut e, resolver, dispute_id, true).unwrap();

    let record = get_dispute(&e, dispute_id).unwrap();
    assert_eq!(record.status, DisputeStatus::ResolvedForBeneficiary);

    let escrow = get_escrow(&e, escrow_id).unwrap();
    assert!(escrow.released);

    assert_eq!(read_balance(&e, beneficiary), 1_000);
}

#[test]
fn test_resolve_dispute_for_depositor() {
    let mut e = setup_env();
    let resolver = account(100);
    let (depositor, _beneficiary, escrow_id) = setup_escrow(&mut e, 1, 1);

    let dispute_id = open_dispute(&mut e, depositor, escrow_id, resolver).unwrap();
    resolve_dispute(&mut e, resolver, dispute_id, false).unwrap();

    let record = get_dispute(&e, dispute_id).unwrap();
    assert_eq!(record.status, DisputeStatus::ResolvedForDepositor);

    let escrow = get_escrow(&e, escrow_id).unwrap();
    assert!(escrow.refunded);

    assert_eq!(read_balance(&e, depositor), 1_000);
}

#[test]
fn test_resolve_dispute_wrong_resolver_panics() {
    let mut e = setup_env();
    let resolver = account(100);
    let impostor = account(101);
    let (depositor, _beneficiary, escrow_id) = setup_escrow(&mut e, 1, 1);

    let dispute_id = open_dispute(&mut e, depositor, escrow_id, resolver).unwrap();
    assert_eq!(
        resolve_dispute(&mut e, impostor, dispute_id, true),
        Err(ContractError::UnauthorizedResolver)
    );
}

#[test]
fn test_double_resolve_panics() {
    let mut e = setup_env();
    let resolver = account(100);
    let (depositor, _beneficiary, escrow_id) = setup_escrow(&mut e, 1, 1);

    let dispute_id = open_dispute(&mut e, depositor, escrow_id, resolver).unwrap();
    resolve_dispute(&mut e, resolver, dispute_id, true).unwrap();
    assert_eq!(
        resolve_dispute(&mut e, resolver, dispute_id, false),
        Err(ContractError::AlreadyResolved)
    );
}

#[test]
fn test_open_dispute_on_settled_escrow_panics() {
    let mut e = setup_env();
    let resolver = account(100);
    let (_depositor, beneficiary, escrow_id) = setup_escrow(&mut e, 1, 1);

    // The escrow is released outside any dispute.
    let mut escrow = get_escrow(&e, escrow_id).unwrap();
    escrow.released = true;
    write_escrow(&mut e, escrow_id, escrow);
    assert_eq!(
        open_dispute(&mut e, beneficiary, escrow_id, resolver),
        Err(ContractError::InvalidState)
    );
}

#[test]
fn test_duplicate_open_dispute_panics() {
    let mut e = setup_env();
    let resolver = account(100);
    let (depositor, _beneficiary, escrow_id) = setup_escrow(&mut e, 1, 1);

    open_dispute(&mut e, depositor, escrow_id, resolver).unwrap();
    // Second open on the same unresolved escrow must fail.
    assert_eq!(
        open_dispute(&mut e, depositor, escrow_id, resolver),
        Err(ContractError::DisputeAlreadyOpen)
    );
}

#[test]
fn test_reopen_dispute_after_resolution() {
    let mut e = setup_env();
    let resolver = account(100);
    let (depositor, _beneficiary, escrow_id) = setup_escrow(&mut e, 1, 1);

    // Create a second escrow to reopen on (the first is settled after resolution).
    let (depositor2, _beneficiary2, escrow_id2) = setup_escrow(&mut e, 2, 2);

    let dispute_id = open_dispute(&mut e, depositor, escrow_id, resolver).unwrap();
    resolve_dispute(&mut e, resolver, dispute_id, false).unwrap();

    // After resolution the open-dispute entry is cleared; a new dispute on a
    // different (still-open) escrow must succeed.
    let new_id = open_dispute(&mut e, depositor2, escrow_id2, resolver).unwrap();
    let record = get_dispute(&e, new_id).unwrap();
    assert_eq!(record.status, DisputeStatus::Open);
}
