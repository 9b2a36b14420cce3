use vstd::prelude::*;

use crate::address::Address;
use crate::ledger::{
    get_escrow, read_balance, receive_spec, spend_spec, write_escrow, ContractError, ContractEvent,
    EscrowRecord, Ledger, LedgerView,
};

verus! {

/// Where a dispute stands.
#[derive(Clone, Copy, Debug, PartialEq, Eq, Structural)]
pub enum DisputeStatus {
    Open,
    ResolvedForBeneficiary,
    ResolvedForDepositor,
}

/// A dispute raised against an escrow.
#[derive(Clone, Copy, Debug, PartialEq, Eq, Structural)]
pub struct DisputeRecord {
    pub id: u32,
    pub escrow_id: u32,
    pub claimant: Address,
    pub resolver: Address,
    pub status: DisputeStatus,
}

/// Opening a dispute, checked in this order: the escrow exists, is unsettled,
/// the claimant is one of its two parties, it has no open dispute, and the
/// dispute counter can advance. On success the new dispute gets the next id,
/// is indexed under its escrow, and a `DisputeOpened` event is published.
pub open spec fn open_dispute_spec(
    s: LedgerView,
    claimant: Address,
    escrow_id: u32,
    resolver: Address,
) -> Result<(LedgerView, u32), ContractError> {
    match s.escrows.get(escrow_id) {
        None => Err(ContractError::EscrowNotFound),
        Some(escrow) => if escrow.released || escrow.refunded {
            Err(ContractError::InvalidState)
        } else if claimant != escrow.depositor && claimant != escrow.beneficiary {
            Err(ContractError::Unauthorized)
        } else if s.open_disputes.contains_key(escrow_id) {
            Err(ContractError::DisputeAlreadyOpen)
        } else if s.disputes.len() >= u32::MAX {
            Err(ContractError::DisputeCountOverflow)
        } else {
            let id = (s.disputes.len() + 1) as u32;
            let record = DisputeRecord {
                id,
                escrow_id,
                claimant,
                resolver,
                status: DisputeStatus::Open,
            };
            Ok(
                (
                    LedgerView {
                        disputes: s.disputes.push(record),
                        open_disputes: s.open_disputes.insert(escrow_id, id),
                        events: s.events.push(ContractEvent::DisputeOpened { escrow_id, claimant }),
                        ..s
                    },
                    id,
                ),
            )
        },
    }
}

/// Settling an escrow: it must exist and be unsettled; it is marked released
/// (or refunded), its amount moves from the contract to the beneficiary (or the
/// depositor), and the matching event is published.
pub open spec fn settle_escrow_spec(s: LedgerView, escrow_id: u32, release_to_beneficiary: bool) -> Result<
    LedgerView,
    ContractError,
> {
    match s.escrows.get(escrow_id) {
        None => Err(ContractError::EscrowNotFound),
        Some(escrow) => if escrow.released || escrow.refunded {
            Err(ContractError::AlreadySettled)
        } else {
            let to = if release_to_beneficiary {
                escrow.beneficiary
            } else {
                escrow.depositor
            };
            let settled = if release_to_beneficiary {
                EscrowRecord { released: true, ..escrow }
            } else {
                EscrowRecord { refunded: true, ..escrow }
            };
            let event = if release_to_beneficiary {
                ContractEvent::EscrowReleased {
                    escrow_id,
                    beneficiary: escrow.beneficiary,
                    amount: escrow.amount,
                }
            } else {
                ContractEvent::EscrowRefunded {
                    escrow_id,
                    depositor: escrow.depositor,
                    amount: escrow.amount,
                }
            };
            match spend_spec(s.balances, s.contract, escrow.amount) {
                Err(err) => Err(err),
                Ok(b1) => match receive_spec(b1, to, escrow.amount) {
                    Err(err) => Err(err),
                    Ok(b2) => Ok(
                        LedgerView {
                            balances: b2,
                            escrows: s.escrows.insert(escrow_id, settled),
                            events: s.events.push(event),
                            ..s
                        },
                    ),
                },
            }
        },
    }
}

/// The status a resolution gives a dispute.
pub open spec fn resolution_status(release_to_beneficiary: bool) -> DisputeStatus {
    if release_to_beneficiary {
        DisputeStatus::ResolvedForBeneficiary
    } else {
        DisputeStatus::ResolvedForDepositor
    }
}

/// Resolving a dispute, checked in this order: the dispute exists, is open, and
/// `resolver` is its designated resolver; then its escrow is settled by the
/// outcome, the dispute takes its final status, leaves the open-dispute index,
/// and a `DisputeResolved` event is published.
pub open spec fn resolve_dispute_spec(
    s: LedgerView,
    resolver: Address,
    dispute_id: u32,
    release_to_beneficiary: bool,
) -> Result<LedgerView, ContractError> {
    match s.dispute(dispute_id) {
        None => Err(ContractError::DisputeNotFound),
        Some(d) => if d.status != DisputeStatus::Open {
            Err(ContractError::AlreadyResolved)
        } else if d.resolver != resolver {
            Err(ContractError::UnauthorizedResolver)
        } else {
            match settle_escrow_spec(s, d.escrow_id, release_to_beneficiary) {
                Err(err) => Err(err),
                Ok(s1) => Ok(
                    LedgerView {
                        disputes: s1.disputes.update(
                            dispute_id - 1,
                            DisputeRecord { status: resolution_status(release_to_beneficiary), ..d },
                        ),
                        open_disputes: s1.open_disputes.remove(d.escrow_id),
                        events: s1.events.push(
                            ContractEvent::DisputeResolved {
                                dispute_id,
                                resolver,
                                release_to_beneficiary,
                            },
                        ),
                        ..s1
                    },
                ),
            }
        },
    }
}

/// Opens a dispute against an existing escrow and returns its id.
/// The claimant's authorization is checked by the caller before this runs.
pub fn open_dispute(e: &mut Ledger, claimant: Address, escrow_id: u32, resolver: Address) -> (r:
    Result<u32, ContractError>)
    requires
        old(e).inv(),
    ensures
        final(e).inv(),
        match open_dispute_spec(old(e)@, claimant, escrow_id, resolver) {
            Ok((s, id)) => r == Ok::<u32, ContractError>(id) && final(e)@ == s,
            Err(err) => r == Err::<u32, ContractError>(err) && final(e)@ == old(e)@,
        },
        // Only a party to an unsettled escrow opens a dispute on it, and gets the next id.
        r is Ok ==> {
            &&& old(e)@.escrows.contains_key(escrow_id)
            &&& !old(e)@.escrows[escrow_id].released
            &&& !old(e)@.escrows[escrow_id].refunded
            &&& (claimant == old(e)@.escrows[escrow_id].depositor || claimant == old(
                e,
            )@.escrows[escrow_id].beneficiary)
            &&& r->Ok_0 == old(e)@.disputes.len() + 1
        },
{
    let escrow = match get_escrow(e, escrow_id) {
        Some(x) => x,
        None => return Err(ContractError::EscrowNotFound),
    };
    if escrow.released || escrow.refunded {
        return Err(ContractError::InvalidState);
    }
    if claimant != escrow.depositor && claimant != escrow.beneficiary {
        return Err(ContractError::Unauthorized);
    }
    // Every check comes before the counter moves, so a rejected call uses up no id.

    if e.has_open_dispute(escrow_id) {
        return Err(ContractError::DisputeAlreadyOpen);
    }
    let count = e.dispute_count();
    if count >= 0xffff_ffffusize {
        return Err(ContractError::DisputeCountOverflow);
    }
    let id = (count + 1) as u32;
    let record = DisputeRecord { id, escrow_id, claimant, resolver, status: DisputeStatus::Open };
    e.record_new_dispute(record);
    e.emit(ContractEvent::DisputeOpened { escrow_id, claimant });
    Ok(id)
}

/// Settles an escrow by the outcome of its dispute; the resolver has already
/// been authorized, so neither party's authorization is asked for.
fn settle_escrow_by_outcome(e: &mut Ledger, escrow_id: u32, release_to_beneficiary: bool) -> (r:
    Result<(), ContractError>)
    requires
        old(e).inv(),
    ensures
        final(e).inv(),
        match settle_escrow_spec(old(e)@, escrow_id, release_to_beneficiary) {
            Ok(s) => r is Ok && final(e)@ == s,
            Err(err) => r == Err::<(), ContractError>(err) && final(e)@ == old(e)@,
        },
{
    let escrow = match get_escrow(e, escrow_id) {
        Some(x) => x,
        None => return Err(ContractError::EscrowNotFound),
    };
    if escrow.released || escrow.refunded {
        return Err(ContractError::AlreadySettled);
    }
    let contract = e.current_contract_address();
    let to = if release_to_beneficiary {
        escrow.beneficiary
    } else {
        escrow.depositor
    };
    // Work out both balance moves before writing anything, so that a refused
    // move leaves the ledger as it was.
    let contract_balance = read_balance(e, contract);
    if contract_balance < escrow.amount {
        return Err(ContractError::InsufficientBalance);
    }
    let contract_after = match contract_balance.checked_sub(escrow.amount) {
        Some(v) => v,
        None => return Err(ContractError::BalanceOverflow),
    };
    let to_balance = if to == contract {
        contract_after
    } else {
        read_balance(e, to)
    };
    let to_after = match to_balance.checked_add(escrow.amount) {
        Some(v) => v,
        None => return Err(ContractError::BalanceOverflow),
    };
    if release_to_beneficiary {
        write_escrow(e, escrow_id, EscrowRecord { released: true, ..escrow });
    } else {
        write_escrow(e, escrow_id, EscrowRecord { refunded: true, ..escrow });
    }
    e.set_balance(contract, contract_after);
    e.set_balance(to, to_after);
    if release_to_beneficiary {
        e.emit(
            ContractEvent::EscrowReleased {
                escrow_id,
                beneficiary: escrow.beneficiary,
                amount: escrow.amount,
            },
        );
    } else {
        e.emit(
            ContractEvent::EscrowRefunded {
                escrow_id,
                depositor: escrow.depositor,
                amount: escrow.amount,
            },
        );
    }
    Ok(())
}

/// Resolves an open dispute; only its designated resolver may do so, and the
/// caller checks that resolver's authorization before this runs. Settlement
/// asks for no authorization from the beneficiary or the depositor.
pub fn resolve_dispute(
    e: &mut Ledger,
    resolver: Address,
    dispute_id: u32,
    release_to_beneficiary: bool,
) -> (r: Result<(), ContractError>)
    requires
        old(e).inv(),
    ensures
        final(e).inv(),
        match resolve_dispute_spec(old(e)@, resolver, dispute_id, release_to_beneficiary) {
            Ok(s) => r is Ok && final(e)@ == s,
            Err(err) => r == Err::<(), ContractError>(err) && final(e)@ == old(e)@,
        },
        // Only the designated resolver resolves, only an open dispute, and only
        // while its escrow is still unsettled.
        r is Ok ==> {
            let d = old(e)@.disputes[dispute_id - 1];
            &&& 1 <= dispute_id <= old(e)@.disputes.len()
            &&& d.resolver == resolver
            &&& d.status == DisputeStatus::Open
            &&& old(e)@.escrows.contains_key(d.escrow_id)
            &&& !old(e)@.escrows[d.escrow_id].released
            &&& !old(e)@.escrows[d.escrow_id].refunded
        },
{
    let dispute = match e.dispute_at(dispute_id) {
        Some(d) => d,
        None => return Err(ContractError::DisputeNotFound),
    };
    if dispute.status != DisputeStatus::Open {
        return Err(ContractError::AlreadyResolved);
    }
    if dispute.resolver != resolver {
        return Err(ContractError::UnauthorizedResolver);
    }
    match settle_escrow_by_outcome(e, dispute.escrow_id, release_to_beneficiary) {
        Ok(()) => {},
        Err(err) => return Err(err),
    }
    let status = if release_to_beneficiary {
        DisputeStatus::ResolvedForBeneficiary
    } else {
        DisputeStatus::ResolvedForDepositor
    };
    e.close_dispute(dispute_id, status);
    e.emit(
        ContractEvent::DisputeResolved { dispute_id, resolver, release_to_beneficiary },
    );
    Ok(())
}

/// The dispute stored under `dispute_id`, if any.
pub fn get_dispute(e: &Ledger, dispute_id: u32) -> (r: Option<DisputeRecord>)
    requires
        e.inv(),
    ensures
        r == e@.dispute(dispute_id),
        // Exactly the ids handed out so far have a dispute, the one stored under them.
        r is Some <==> 1 <= dispute_id <= e@.disputes.len(),
        r matches Some(d) ==> d == e@.disputes[dispute_id - 1] && d.id == dispute_id,
{
    proof {
        e.lemma_inv_valid();
    }
    e.dispute_at(dispute_id)
}

} // verus!
