use veritix_token::address::{Address, AddressKind};
use veritix_token::freeze::{freeze_account, is_frozen, unfreeze_account};
use veritix_token::ledger::{ContractEvent, Ledger};

fn account(n: u128) -> Address {
    Address { kind: AddressKind::Account, key_hi: n, key_lo: 0 }
}

#[test]
fn unknown_account_is_not_frozen() {
    let e = Ledger::new(Address { kind: AddressKind::Contract, key_hi: 0, key_lo: 1 });
    assert!(!is_frozen(&e, &account(4)));
}

#[test]
fn freeze_then_unfreeze() {
    let mut e = Ledger::new(Address { kind: AddressKind::Contract, key_hi: 0, key_lo: 1 });
    let admin = account(1);
    freeze_account(&mut e, admin, account(2));
    assert!(is_frozen(&e, &account(2)));
    assert!(!is_frozen(&e, &account(3)));
    // Freezing twice is the same as freezing once.
    freeze_account(&mut e, admin, account(2));
    assert!(is_frozen(&e, &account(2)));
    unfreeze_account(&mut e, admin, account(2));
    assert!(!is_frozen(&e, &account(2)));
    // Unfreezing an account that is not frozen leaves it unfrozen.
    unfreeze_account(&mut e, admin, account(3));
    assert!(!is_frozen(&e, &account(3)));
    assert_eq!(
        e.events().clone(),
        vec![
            ContractEvent::Frozen { target: account(2), admin },
            ContractEvent::Frozen { target: account(2), admin },
            ContractEvent::Unfrozen { target: account(2), admin },
            ContractEvent::Unfrozen { target: account(3), admin },
        ]
    );
}

#[test]
fn freezing_one_account_leaves_others() {
    let mut e = Ledger::new(Address { kind: AddressKind::Contract, key_hi: 0, key_lo: 1 });
    freeze_account(&mut e, account(1), account(2));
    freeze_account(&mut e, account(1), account(3));
    unfreeze_account(&mut e, account(1), account(2));
    assert!(!is_frozen(&e, &account(2)));
    assert!(is_frozen(&e, &account(3)));
}
