use vstd::prelude::*;

use crate::address::Address;
use crate::dispute::{
    open_dispute_spec, resolution_status, resolve_dispute_spec, settle_escrow_spec, DisputeRecord,
    DisputeStatus,
};
use crate::freeze::{freeze_spec, unfreeze_spec};
use crate::ledger::{
    balance_in, open_index, parts_consistent, parts_view, receive_spec, spend_spec, ContractError,
    ContractEvent, LedgerParts, LedgerView,
};

verus! {

/// A successful opening hands out the next id in sequence (one more than the
/// number of disputes so far), stores the dispute as open with the given
/// parties, and keeps the state valid.
pub proof fn law_open_dispute_takes_next_id(
    s: LedgerView,
    claimant: Address,
    escrow_id: u32,
    resolver: Address,
)
    requires
        s.valid(),
    ensures
        match open_dispute_spec(s, claimant, escrow_id, resolver) {
            Ok((t, id)) => {
                &&& id == s.disputes.len() + 1
                &&& t.disputes.len() == id
                &&& t.dispute(id) == Some(
                    DisputeRecord { id, escrow_id, claimant, resolver, status: DisputeStatus::Open },
                )
                &&& t.valid()
            },
            Err(_) => true,
        },
{
    match open_dispute_spec(s, claimant, escrow_id, resolver) {
        Ok((t, id)) => {
            assert forall|k: u32| #[trigger] t.open_disputes.contains_key(k) implies {
                let d = t.open_disputes[k];
                &&& 1 <= d <= t.disputes.len()
                &&& t.disputes[d - 1].escrow_id == k
                &&& t.disputes[d - 1].status == DisputeStatus::Open
            } by {
                if k != escrow_id {
                    assert(s.open_disputes.contains_key(k));
                }
            }
            assert forall|i: int|
                0 <= i < t.disputes.len() && #[trigger] t.disputes[i].status
                    == DisputeStatus::Open implies {
                &&& t.open_disputes.contains_key(t.disputes[i].escrow_id)
                &&& t.open_disputes[t.disputes[i].escrow_id] == i + 1
            } by {
                if i < s.disputes.len() {
                    assert(t.disputes[i] == s.disputes[i]);
                    assert(s.open_disputes.contains_key(s.disputes[i].escrow_id));
                }
            }
        },
        Err(_) => {},
    }
}

/// In a valid state no escrow has two open disputes.
pub proof fn law_one_open_dispute_per_escrow(s: LedgerView, i: int, j: int)
    requires
        s.valid(),
        0 <= i < s.disputes.len(),
        0 <= j < s.disputes.len(),
        s.disputes[i].status == DisputeStatus::Open,
        s.disputes[j].status == DisputeStatus::Open,
        s.disputes[i].escrow_id == s.disputes[j].escrow_id,
    ensures
        i == j,
{
}

/// Once a dispute is open on an escrow, a second opening on that escrow is
/// refused; for the same claimant the reason is that a dispute is already open.
pub proof fn law_no_second_open_dispute(
    s: LedgerView,
    claimant: Address,
    escrow_id: u32,
    resolver: Address,
    other_claimant: Address,
    other_resolver: Address,
)
    requires
        s.valid(),
        open_dispute_spec(s, claimant, escrow_id, resolver) is Ok,
    ensures
        ({
            let t = open_dispute_spec(s, claimant, escrow_id, resolver)->Ok_0.0;
            &&& open_dispute_spec(t, other_claimant, escrow_id, other_resolver) is Err
            &&& open_dispute_spec(t, claimant, escrow_id, other_resolver) == Err::<
                (LedgerView, u32),
                ContractError,
            >(ContractError::DisputeAlreadyOpen)
        }),
{
}

/// A successful resolution keeps the state valid, gives the dispute the status
/// of its outcome, marks the escrow released (for the beneficiary) or refunded
/// (for the depositor), and clears the escrow's open-dispute entry.
pub proof fn law_resolution_settles_escrow(
    s: LedgerView,
    resolver: Address,
    dispute_id: u32,
    release_to_beneficiary: bool,
)
    requires
        s.valid(),
    ensures
        match resolve_dispute_spec(s, resolver, dispute_id, release_to_beneficiary) {
            Ok(t) => {
                let d = s.dispute(dispute_id)->0;
                &&& t.valid()
                &&& t.dispute(dispute_id) == Some(
                    DisputeRecord { status: resolution_status(release_to_beneficiary), ..d },
                )
                &&& t.escrows.contains_key(d.escrow_id)
                &&& t.escrows[d.escrow_id].released == release_to_beneficiary
                &&& t.escrows[d.escrow_id].refunded == !release_to_beneficiary
                &&& !t.open_disputes.contains_key(d.escrow_id)
            },
            Err(_) => true,
        },
{
    match resolve_dispute_spec(s, resolver, dispute_id, release_to_beneficiary) {
        Ok(t) => {
            let d = s.dispute(dispute_id)->0;
            let s1 = settle_escrow_spec(s, d.escrow_id, release_to_beneficiary)->Ok_0;
            assert(s1.disputes == s.disputes);
            assert(s1.open_disputes == s.open_disputes);
            let idx = dispute_id - 1;
            assert(s.open_disputes.contains_key(d.escrow_id));
            assert forall|k: u32| #[trigger] t.open_disputes.contains_key(k) implies {
                let e = t.open_disputes[k];
                &&& 1 <= e <= t.disputes.len()
                &&& t.disputes[e - 1].escrow_id == k
                &&& t.disputes[e - 1].status == DisputeStatus::Open
            } by {
                assert(s.open_disputes.contains_key(k));
                assert(k != d.escrow_id);
            }
            assert forall|i: int|
                0 <= i < t.disputes.len() && #[trigger] t.disputes[i].status
                    == DisputeStatus::Open implies {
                &&& t.open_disputes.contains_key(t.disputes[i].escrow_id)
                &&& t.open_disputes[t.disputes[i].escrow_id] == i + 1
            } by {
                assert(i != idx);
                assert(t.disputes[i] == s.disputes[i]);
                assert(s.open_disputes.contains_key(s.disputes[i].escrow_id));
            }
        },
        Err(_) => {},
    }
}

/// Resolution is final: after a successful resolution, resolving the same
/// dispute again is refused as already resolved, whoever asks and whatever
/// the outcome asked for.
pub proof fn law_resolution_is_final(
    s: LedgerView,
    resolver: Address,
    dispute_id: u32,
    release_to_beneficiary: bool,
    again_resolver: Address,
    again_release: bool,
)
    requires
        s.valid(),
        resolve_dispute_spec(s, resolver, dispute_id, release_to_beneficiary) is Ok,
    ensures
        resolve_dispute_spec(
            resolve_dispute_spec(s, resolver, dispute_id, release_to_beneficiary)->Ok_0,
            again_resolver,
            dispute_id,
            again_release,
        ) == Err::<LedgerView, ContractError>(ContractError::AlreadyResolved),
{
    law_resolution_settles_escrow(s, resolver, dispute_id, release_to_beneficiary);
}

/// A settled escrow cannot be disputed again: after a successful resolution,
/// every opening on that escrow is refused as an invalid state.
pub proof fn law_settled_escrow_not_disputable(
    s: LedgerView,
    resolver: Address,
    dispute_id: u32,
    release_to_beneficiary: bool,
    claimant: Address,
    new_resolver: Address,
)
    requires
        s.valid(),
        resolve_dispute_spec(s, resolver, dispute_id, release_to_beneficiary) is Ok,
    ensures
        open_dispute_spec(
            resolve_dispute_spec(s, resolver, dispute_id, release_to_beneficiary)->Ok_0,
            claimant,
            s.dispute(dispute_id)->0.escrow_id,
            new_resolver,
        ) == Err::<(LedgerView, u32), ContractError>(ContractError::InvalidState),
{
    law_resolution_settles_escrow(s, resolver, dispute_id, release_to_beneficiary);
}

/// A resolution moves exactly the escrowed amount from the contract to the
/// party it favours: every other balance stays, and the two balances involved
/// keep their sum.
pub proof fn law_resolution_conserves_funds(
    s: LedgerView,
    resolver: Address,
    dispute_id: u32,
    release_to_beneficiary: bool,
    other: Address,
)
    requires
        s.valid(),
        resolve_dispute_spec(s, resolver, dispute_id, release_to_beneficiary) is Ok,
    ensures
        ({
            let t = resolve_dispute_spec(s, resolver, dispute_id, release_to_beneficiary)->Ok_0;
            let escrow = s.escrows[s.dispute(dispute_id)->0.escrow_id];
            let to = if release_to_beneficiary {
                escrow.beneficiary
            } else {
                escrow.depositor
            };
            &&& (other != s.contract && other != to ==> t.balance(other) == s.balance(other))
            &&& t.balance(s.contract) + t.balance(to) == s.balance(s.contract) + s.balance(to)
            &&& (to != s.contract ==> t.balance(to) == s.balance(to) + escrow.amount)
        }),
{
}

/// Resolving one dispute leaves every other dispute as it was.
pub proof fn law_resolution_touches_one_dispute(
    s: LedgerView,
    resolver: Address,
    dispute_id: u32,
    release_to_beneficiary: bool,
    other_id: u32,
)
    requires
        s.valid(),
        resolve_dispute_spec(s, resolver, dispute_id, release_to_beneficiary) is Ok,
        other_id != dispute_id,
    ensures
        resolve_dispute_spec(s, resolver, dispute_id, release_to_beneficiary)->Ok_0.dispute(other_id)
            == s.dispute(other_id),
{
}

/// Opening a dispute leaves every existing dispute as it was.
pub proof fn law_open_keeps_existing_disputes(
    s: LedgerView,
    claimant: Address,
    escrow_id: u32,
    resolver: Address,
    id: u32,
)
    requires
        s.valid(),
        open_dispute_spec(s, claimant, escrow_id, resolver) is Ok,
        1 <= id <= s.disputes.len(),
    ensures
        open_dispute_spec(s, claimant, escrow_id, resolver)->Ok_0.0.dispute(id) == s.dispute(id),
{
}

/// After `freeze_account`, the target is frozen and a `Frozen` event names it and
/// the admin; no other account changes.
pub proof fn law_freeze_then_frozen(s: LedgerView, admin: Address, target: Address, other: Address)
    ensures
        freeze_spec(s, admin, target).frozen.contains(target),
        freeze_spec(s, admin, target).events == s.events.push(ContractEvent::Frozen { target, admin }),
        other != target ==> (freeze_spec(s, admin, target).frozen.contains(other)
            == s.frozen.contains(other)),
{
}

/// After `unfreeze_account`, the target is not frozen and an `Unfrozen` event
/// names it and the admin; no other account changes.
pub proof fn law_unfreeze_then_not_frozen(s: LedgerView, admin: Address, target: Address, other: Address)
    ensures
        !unfreeze_spec(s, admin, target).frozen.contains(target),
        unfreeze_spec(s, admin, target).events == s.events.push(
            ContractEvent::Unfrozen { target, admin },
        ),
        other != target ==> (unfreeze_spec(s, admin, target).frozen.contains(other)
            == s.frozen.contains(other)),
{
}

/// Unfreezing undoes freezing: for an account that was not frozen, freezing and
/// then unfreezing it gives back the same set of frozen accounts.
pub proof fn law_unfreeze_undoes_freeze(
    s: LedgerView,
    admin: Address,
    target: Address,
    other_admin: Address,
)
    requires
        !s.frozen.contains(target),
    ensures
        unfreeze_spec(freeze_spec(s, admin, target), other_admin, target).frozen == s.frozen,
{
    assert(s.frozen.insert(target).remove(target) =~= s.frozen);
}

/// Freezing and unfreezing touch only the frozen accounts and the event log:
/// balances, escrows and disputes stay, and so does validity.
pub proof fn law_freeze_keeps_funds_and_disputes(s: LedgerView, admin: Address, target: Address)
    requires
        s.valid(),
    ensures
        freeze_spec(s, admin, target).valid(),
        unfreeze_spec(s, admin, target).valid(),
        freeze_spec(s, admin, target).balances == s.balances,
        unfreeze_spec(s, admin, target).balances == s.balances,
        freeze_spec(s, admin, target).disputes == s.disputes,
        unfreeze_spec(s, admin, target).disputes == s.disputes,
        freeze_spec(s, admin, target).escrows == s.escrows,
        unfreeze_spec(s, admin, target).escrows == s.escrows,
{
}

/// Stored parts that pass the consistency check describe a valid state, so a
/// ledger read back from storage keeps every invariant the operations rely on.
pub proof fn law_consistent_parts_are_valid(p: LedgerParts)
    requires
        parts_consistent(p),
    ensures
        parts_view(p).valid(),
{
    let s = parts_view(p);
    let ds = p.disputes@;
    assert forall|k: u32| #[trigger] s.open_disputes.contains_key(k) implies {
        let d = s.open_disputes[k];
        &&& 1 <= d <= s.disputes.len()
        &&& s.disputes[d - 1].escrow_id == k
        &&& s.disputes[d - 1].status == DisputeStatus::Open
    } by {
        let i = choose|i: int|
            0 <= i < ds.len() && ds[i].status == DisputeStatus::Open && #[trigger] ds[i].escrow_id
                == k;
        assert(ds[i].id == i + 1);
    }
    assert forall|i: int|
        0 <= i < s.disputes.len() && #[trigger] s.disputes[i].status
            == DisputeStatus::Open implies {
        &&& s.open_disputes.contains_key(s.disputes[i].escrow_id)
        &&& s.open_disputes[s.disputes[i].escrow_id] == i + 1
    } by {
        let k = ds[i].escrow_id;
        assert(open_index(ds).contains_key(k));
        let j = choose|j: int|
            0 <= j < ds.len() && ds[j].status == DisputeStatus::Open && #[trigger] ds[j].escrow_id
                == k;
        assert(ds[j].escrow_id == ds[i].escrow_id);
        assert(j == i);
    }
}

/// Only the resolver named in a dispute can resolve it: a successful resolution
/// was asked for by the stored dispute's resolver, on an open dispute; anyone
/// else asking about an open dispute is refused as an unauthorized resolver.
pub proof fn law_only_designated_resolver_resolves(
    s: LedgerView,
    resolver: Address,
    dispute_id: u32,
    release_to_beneficiary: bool,
)
    requires
        s.valid(),
    ensures
        resolve_dispute_spec(s, resolver, dispute_id, release_to_beneficiary) is Ok ==> {
            &&& 1 <= dispute_id <= s.disputes.len()
            &&& s.disputes[dispute_id - 1].resolver == resolver
            &&& s.disputes[dispute_id - 1].status == DisputeStatus::Open
        },
        1 <= dispute_id <= s.disputes.len() && s.disputes[dispute_id - 1].status
            == DisputeStatus::Open && s.disputes[dispute_id - 1].resolver != resolver
            ==> resolve_dispute_spec(s, resolver, dispute_id, release_to_beneficiary) == Err::<
            LedgerView,
            ContractError,
        >(ContractError::UnauthorizedResolver),
{
}

/// A released or refunded escrow cannot be disputed: every opening on it is
/// refused as an invalid state, whoever asks and whoever is named resolver.
pub proof fn law_settled_escrow_rejects_opening(
    s: LedgerView,
    claimant: Address,
    escrow_id: u32,
    resolver: Address,
)
    ensures
        s.escrows.contains_key(escrow_id) && (s.escrows[escrow_id].released
            || s.escrows[escrow_id].refunded) ==> open_dispute_spec(
            s,
            claimant,
            escrow_id,
            resolver,
        ) == Err::<(LedgerView, u32), ContractError>(ContractError::InvalidState),
        open_dispute_spec(s, claimant, escrow_id, resolver) is Ok ==> {
            &&& s.escrows.contains_key(escrow_id)
            &&& !s.escrows[escrow_id].released
            &&& !s.escrows[escrow_id].refunded
        },
{
}

/// Only a party to an escrow opens a dispute on it: a successful opening was
/// asked for by the escrow's depositor or beneficiary, whoever the resolver is,
/// and an unsettled escrow refuses anyone else as unauthorized.
pub proof fn law_only_parties_open_disputes(
    s: LedgerView,
    claimant: Address,
    escrow_id: u32,
    resolver: Address,
)
    ensures
        open_dispute_spec(s, claimant, escrow_id, resolver) is Ok ==> (claimant
            == s.escrows[escrow_id].depositor || claimant == s.escrows[escrow_id].beneficiary),
        s.escrows.contains_key(escrow_id) && !s.escrows[escrow_id].released
            && !s.escrows[escrow_id].refunded && claimant != s.escrows[escrow_id].depositor
            && claimant != s.escrows[escrow_id].beneficiary ==> open_dispute_spec(
            s,
            claimant,
            escrow_id,
            resolver,
        ) == Err::<(LedgerView, u32), ContractError>(ContractError::Unauthorized),
{
}

/// An escrow is settled at most once: settling a released or refunded escrow is
/// refused whichever outcome is asked for and moves no funds, so a successful
/// resolution found its escrow neither released nor refunded.
pub proof fn law_escrow_settled_at_most_once(
    s: LedgerView,
    escrow_id: u32,
    release_to_beneficiary: bool,
    resolver: Address,
    dispute_id: u32,
)
    requires
        s.valid(),
    ensures
        s.escrows.contains_key(escrow_id) && (s.escrows[escrow_id].released
            || s.escrows[escrow_id].refunded) ==> settle_escrow_spec(
            s,
            escrow_id,
            release_to_beneficiary,
        ) == Err::<LedgerView, ContractError>(ContractError::AlreadySettled),
        resolve_dispute_spec(s, resolver, dispute_id, release_to_beneficiary) is Ok ==> {
            let k = s.disputes[dispute_id - 1].escrow_id;
            &&& 1 <= dispute_id <= s.disputes.len()
            &&& s.escrows.contains_key(k)
            &&& !s.escrows[k].released
            &&& !s.escrows[k].refunded
        },
{
}

/// Exactly the ids handed out so far name a dispute: `dispute(id)` is present
/// if and only if `1 <= id <=` the number of disputes opened, and then it is the
/// record stored at that position, carrying that id. An id never handed out
/// names no dispute, and resolving it is refused as not found.
pub proof fn law_dispute_lookup(s: LedgerView, id: u32, resolver: Address, release_to_beneficiary: bool)
    requires
        s.valid(),
    ensures
        s.dispute(id) is Some <==> 1 <= id <= s.disputes.len(),
        s.dispute(id) matches Some(d) ==> d == s.disputes[id - 1] && d.id == id,
        !(1 <= id <= s.disputes.len()) ==> resolve_dispute_spec(s, resolver, id, release_to_beneficiary)
            == Err::<LedgerView, ContractError>(ContractError::DisputeNotFound),
{
}

/// Spending takes exactly `amount` from the spender and touches no other
/// balance; it is refused as insufficient exactly when the spender holds less.
/// Receiving adds exactly `amount` and touches no other balance; it is refused
/// only when the new balance would leave the range of `i128`.
pub proof fn law_balance_moves(
    balances: Map<Address, i128>,
    a: Address,
    amount: i128,
    other: Address,
)
    ensures
        spend_spec(balances, a, amount) is Ok ==> {
            let b = spend_spec(balances, a, amount)->Ok_0;
            &&& balance_in(b, a) == balance_in(balances, a) - amount
            &&& (other != a ==> balance_in(b, other) == balance_in(balances, other))
        },
        (spend_spec(balances, a, amount) == Err::<Map<Address, i128>, ContractError>(
            ContractError::InsufficientBalance,
        )) <==> balance_in(balances, a) < amount,
        receive_spec(balances, a, amount) is Ok ==> {
            let b = receive_spec(balances, a, amount)->Ok_0;
            &&& balance_in(b, a) == balance_in(balances, a) + amount
            &&& (other != a ==> balance_in(b, other) == balance_in(balances, other))
        },
        receive_spec(balances, a, amount) is Err <==> (balance_in(balances, a) + amount > i128::MAX
            || balance_in(balances, a) + amount < i128::MIN),
{
}

/// A successful opening publishes exactly one event, naming the escrow and the
/// claimant; balances, escrows and frozen accounts stay as they were.
pub proof fn law_open_dispute_effects(
    s: LedgerView,
    claimant: Address,
    escrow_id: u32,
    resolver: Address,
)
    ensures
        open_dispute_spec(s, claimant, escrow_id, resolver) is Ok ==> {
            let t = open_dispute_spec(s, claimant, escrow_id, resolver)->Ok_0.0;
            &&& t.events == s.events.push(ContractEvent::DisputeOpened { escrow_id, claimant })
            &&& t.balances == s.balances
            &&& t.escrows == s.escrows
            &&& t.frozen == s.frozen
            &&& t.contract == s.contract
        },
{
}

/// A successful resolution publishes two events, the settlement (release to the
/// beneficiary or refund to the depositor, with the escrowed amount) followed
/// by the resolution (naming the dispute, the resolver and the outcome), and
/// leaves every other escrow and the frozen accounts as they were.
pub proof fn law_resolve_dispute_effects(
    s: LedgerView,
    resolver: Address,
    dispute_id: u32,
    release_to_beneficiary: bool,
    other_escrow: u32,
)
    requires
        s.valid(),
    ensures
        resolve_dispute_spec(s, resolver, dispute_id, release_to_beneficiary) is Ok ==> {
            let t = resolve_dispute_spec(s, resolver, dispute_id, release_to_beneficiary)->Ok_0;
            let k = s.disputes[dispute_id - 1].escrow_id;
            let esc = s.escrows[k];
            let settled = if release_to_beneficiary {
                ContractEvent::EscrowReleased {
                    escrow_id: k,
                    beneficiary: esc.beneficiary,
                    amount: esc.amount,
                }
            } else {
                ContractEvent::EscrowRefunded {
                    escrow_id: k,
                    depositor: esc.depositor,
                    amount: esc.amount,
                }
            };
            &&& t.events == s.events.push(settled).push(
                ContractEvent::DisputeResolved { dispute_id, resolver, release_to_beneficiary },
            )
            &&& (other_escrow != k ==> t.escrows.get(other_escrow) == s.escrows.get(other_escrow))
            &&& t.escrows[k].amount == esc.amount
            &&& t.escrows[k].depositor == esc.depositor
            &&& t.escrows[k].beneficiary == esc.beneficiary
            &&& t.frozen == s.frozen
            &&& t.disputes.len() == s.disputes.len()
        },
{
}

} // verus!
