use veritix_token::address::{Address, AddressKind};
use veritix_token::dispute::{get_dispute, open_dispute, resolve_dispute, DisputeRecord, DisputeStatus};
use veritix_token::ledger::{
    get_escrow, read_balance, receive_balance, spend_balance, write_escrow, ContractError,
    ContractEvent, EscrowRecord, Ledger,
};

fn account(n: u128) -> Address {
    Address { kind: AddressKind::Account, key_hi: 0, key_lo: n }
}

fn contract_address() -> Address {
    Address { kind: AddressKind::Contract, key_hi: 7, key_lo: 7 }
}

/// A ledger whose contract holds `funds` and which records one unsettled
/// escrow of `amount` under id 1, between accounts 1 and 2.
fn ledger_with_escrow(funds: i128, amount: i128) -> Ledger {
    let mut e = Ledger::new(contract_address());
    receive_balance(&mut e, contract_address(), funds).unwrap();
    write_escrow(
        &mut e,
        1,
        EscrowRecord {
            depositor: account(1),
            beneficiary: account(2),
            amount,
            released: false,
            refunded: false,
        },
    );
    e
}

#[test]
fn dispute_ids_count_up_from_one() {
    let mut e = ledger_with_escrow(3_000, 1_000);
    for id in 2..4u32 {
        write_escrow(
            &mut e,
            id,
            EscrowRecord {
                depositor: account(1),
                beneficiary: account(2),
                amount: 1_000,
                released: false,
                refunded: false,
            },
        );
    }
    assert_eq!(open_dispute(&mut e, account(1), 1, account(9)), Ok(1));
    assert_eq!(open_dispute(&mut e, account(2), 2, account(9)), Ok(2));
    assert_eq!(open_dispute(&mut e, account(1), 3, account(9)), Ok(3));
    assert_eq!(e.dispute_count(), 3);
    assert_eq!(
        get_dispute(&e, 2),
        Some(DisputeRecord {
            id: 2,
            escrow_id: 2,
            claimant: account(2),
            resolver: account(9),
            status: DisputeStatus::Open,
        })
    );
}

#[test]
fn rejected_open_uses_up_no_id() {
    let mut e = ledger_with_escrow(1_000, 1_000);
    // A stranger is refused; the counter does not move and nothing is published.
    assert_eq!(open_dispute(&mut e, account(5), 1, account(9)), Err(ContractError::Unauthorized));
    assert_eq!(e.dispute_count(), 0);
    assert!(e.events().is_empty());
    assert_eq!(open_dispute(&mut e, account(1), 1, account(9)), Ok(1));
}

#[test]
fn open_dispute_on_missing_escrow_is_refused() {
    let mut e = ledger_with_escrow(1_000, 1_000);
    assert_eq!(open_dispute(&mut e, account(1), 42, account(9)), Err(ContractError::EscrowNotFound));
    assert_eq!(e.dispute_count(), 0);
}

#[test]
fn resolving_unknown_dispute_is_refused() {
    let mut e = ledger_with_escrow(1_000, 1_000);
    assert_eq!(resolve_dispute(&mut e, account(9), 0, true), Err(ContractError::DisputeNotFound));
    assert_eq!(resolve_dispute(&mut e, account(9), 1, true), Err(ContractError::DisputeNotFound));
    assert_eq!(get_dispute(&e, 1), None);
}

#[test]
fn resolving_after_escrow_settled_elsewhere_is_refused() {
    let mut e = ledger_with_escrow(1_000, 1_000);
    let id = open_dispute(&mut e, account(1), 1, account(9)).unwrap();
    let mut escrow = get_escrow(&e, 1).unwrap();
    escrow.refunded = true;
    write_escrow(&mut e, 1, escrow);
    assert_eq!(resolve_dispute(&mut e, account(9), id, true), Err(ContractError::AlreadySettled));
    assert_eq!(get_dispute(&e, id).unwrap().status, DisputeStatus::Open);
}

#[test]
fn resolution_without_escrowed_funds_changes_nothing() {
    // The contract holds less than the escrowed amount.
    let mut e = ledger_with_escrow(400, 1_000);
    let id = open_dispute(&mut e, account(1), 1, account(9)).unwrap();
    let events_before = e.events().len();
    assert_eq!(
        resolve_dispute(&mut e, account(9), id, true),
        Err(ContractError::InsufficientBalance)
    );
    assert_eq!(get_dispute(&e, id).unwrap().status, DisputeStatus::Open);
    assert!(!get_escrow(&e, 1).unwrap().released);
    assert_eq!(read_balance(&e, contract_address()), 400);
    assert_eq!(read_balance(&e, account(2)), 0);
    assert_eq!(e.events().len(), events_before);
}

#[test]
fn resolution_that_would_overflow_changes_nothing() {
    let mut e = ledger_with_escrow(1_000, 1_000);
    receive_balance(&mut e, account(2), i128::MAX - 10).unwrap();
    let id = open_dispute(&mut e, account(2), 1, account(9)).unwrap();
    assert_eq!(resolve_dispute(&mut e, account(9), id, true), Err(ContractError::BalanceOverflow));
    assert_eq!(read_balance(&e, contract_address()), 1_000);
    assert_eq!(read_balance(&e, account(2)), i128::MAX - 10);
    // The other outcome is still possible.
    assert_eq!(resolve_dispute(&mut e, account(9), id, false), Ok(()));
    assert_eq!(read_balance(&e, account(1)), 1_000);
    assert_eq!(read_balance(&e, contract_address()), 0);
}

#[test]
fn resolution_moves_exactly_the_escrowed_amount() {
    let mut e = ledger_with_escrow(5_000, 1_200);
    receive_balance(&mut e, account(2), 30).unwrap();
    receive_balance(&mut e, account(3), 77).unwrap();
    let id = open_dispute(&mut e, account(1), 1, account(9)).unwrap();
    resolve_dispute(&mut e, account(9), id, true).unwrap();
    assert_eq!(read_balance(&e, contract_address()), 3_800);
    assert_eq!(read_balance(&e, account(2)), 1_230);
    assert_eq!(read_balance(&e, account(1)), 0);
    assert_eq!(read_balance(&e, account(3)), 77);
}

#[test]
fn settled_escrow_cannot_be_disputed_again() {
    let mut e = ledger_with_escrow(1_000, 1_000);
    let id = open_dispute(&mut e, account(1), 1, account(9)).unwrap();
    resolve_dispute(&mut e, account(9), id, true).unwrap();
    assert_eq!(open_dispute(&mut e, account(1), 1, account(9)), Err(ContractError::InvalidState));
    assert_eq!(open_dispute(&mut e, account(2), 1, account(8)), Err(ContractError::InvalidState));
}

#[test]
fn events_follow_the_dispute() {
    let mut e = ledger_with_escrow(1_000, 1_000);
    let id = open_dispute(&mut e, account(1), 1, account(9)).unwrap();
    resolve_dispute(&mut e, account(9), id, false).unwrap();
    let events = e.take_events();
    assert_eq!(
        events,
        vec![
            ContractEvent::DisputeOpened { escrow_id: 1, claimant: account(1) },
            ContractEvent::EscrowRefunded { escrow_id: 1, depositor: account(1), amount: 1_000 },
            ContractEvent::DisputeResolved {
                dispute_id: id,
                resolver: account(9),
                release_to_beneficiary: false,
            },
        ]
    );
    assert!(e.events().is_empty());
}

#[test]
fn balances_start_at_zero_and_follow_credits_and_debits() {
    let mut e = Ledger::new(contract_address());
    assert_eq!(read_balance(&e, account(1)), 0);
    assert_eq!(receive_balance(&mut e, account(1), 500), Ok(()));
    assert_eq!(spend_balance(&mut e, account(1), 200), Ok(()));
    assert_eq!(read_balance(&e, account(1)), 300);
    assert_eq!(spend_balance(&mut e, account(1), 301), Err(ContractError::InsufficientBalance));
    assert_eq!(read_balance(&e, account(1)), 300);
    assert_eq!(receive_balance(&mut e, account(1), i128::MAX), Err(ContractError::BalanceOverflow));
    assert_eq!(read_balance(&e, account(1)), 300);
    assert_eq!(spend_balance(&mut e, account(2), -1), Ok(()));
    assert_eq!(read_balance(&e, account(2)), 1);
    assert_eq!(spend_balance(&mut e, account(3), i128::MIN), Err(ContractError::BalanceOverflow));
}

#[test]
fn escrows_read_back_what_was_written() {
    let mut e = Ledger::new(contract_address());
    assert_eq!(get_escrow(&e, 3), None);
    let rec = EscrowRecord {
        depositor: account(1),
        beneficiary: account(2),
        amount: 10,
        released: false,
        refunded: false,
    };
    write_escrow(&mut e, 3, rec);
    assert_eq!(get_escrow(&e, 3), Some(rec));
    let rec2 = EscrowRecord { amount: 11, ..rec };
    write_escrow(&mut e, 3, rec2);
    assert_eq!(get_escrow(&e, 3), Some(rec2));
    assert_eq!(get_escrow(&e, 4), None);
}
