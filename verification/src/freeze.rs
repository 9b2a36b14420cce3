use vstd::prelude::*;

use crate::address::Address;
use crate::ledger::{ContractEvent, Ledger, LedgerView};

verus! {

/// Freezing `target`: it joins the frozen accounts and a `Frozen` event is published.
pub open spec fn freeze_spec(s: LedgerView, admin: Address, target: Address) -> LedgerView {
    LedgerView {
        frozen: s.frozen.insert(target),
        events: s.events.push(ContractEvent::Frozen { target, admin }),
        ..s
    }
}

/// Unfreezing `target`: it leaves the frozen accounts and an `Unfrozen` event is published.
pub open spec fn unfreeze_spec(s: LedgerView, admin: Address, target: Address) -> LedgerView {
    LedgerView {
        frozen: s.frozen.remove(target),
        events: s.events.push(ContractEvent::Unfrozen { target, admin }),
        ..s
    }
}

/// Whether `addr` is frozen; an account never frozen is not.
pub fn is_frozen(e: &Ledger, addr: &Address) -> (r: bool)
    requires
        e.inv(),
    ensures
        r == e@.frozen.contains(*addr),
{
    e.frozen_contains(*addr)
}

/// Freezes `target`. `admin` is recorded in the published event; whether
/// `admin` may do this is for the caller to decide.
pub fn freeze_account(e: &mut Ledger, admin: Address, target: Address)
    requires
        old(e).inv(),
    ensures
        final(e).inv(),
        final(e)@ == freeze_spec(old(e)@, admin, target),
{
    e.add_frozen(target);
    e.emit(ContractEvent::Frozen { target, admin });
}

/// Unfreezes `target`. `admin` is recorded in the published event; whether
/// `admin` may do this is for the caller to decide.
pub fn unfreeze_account(e: &mut Ledger, admin: Address, target: Address)
    requires
        old(e).inv(),
    ensures
        final(e).inv(),
        final(e)@ == unfreeze_spec(old(e)@, admin, target),
{
    e.remove_frozen(target);
    e.emit(ContractEvent::Unfrozen { target, admin });
}

} // verus!
