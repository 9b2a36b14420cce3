use vstd::prelude::*;

use crate::address::Address;
use crate::assoc::{
    assoc_map, find_address_key, find_u32_key, keys_distinct, lemma_assoc_index, lemma_assoc_missing,
    lemma_assoc_push, lemma_assoc_remove, lemma_assoc_update, find_address,
};
use crate::dispute::{DisputeRecord, DisputeStatus};

verus! {

/// An escrow as the dispute logic reads it: who deposited, who benefits,
/// how much the contract holds for it, and whether it has been settled.
#[derive(Clone, Copy, Debug, PartialEq, Eq, Structural)]
pub struct EscrowRecord {
    pub depositor: Address,
    pub beneficiary: Address,
    pub amount: i128,
    pub released: bool,
    pub refunded: bool,
}

/// The events the contract publishes.
#[derive(Clone, Copy, Debug, PartialEq, Eq, Structural)]
pub enum ContractEvent {
    DisputeOpened { escrow_id: u32, claimant: Address },
    EscrowReleased { escrow_id: u32, beneficiary: Address, amount: i128 },
    EscrowRefunded { escrow_id: u32, depositor: Address, amount: i128 },
    DisputeResolved { dispute_id: u32, resolver: Address, release_to_beneficiary: bool },
    Frozen { target: Address, admin: Address },
    Unfrozen { target: Address, admin: Address },
}

/// Why the contract rejects a call. A rejected call changes nothing.
#[derive(Clone, Copy, Debug, PartialEq, Eq, Structural)]
pub enum ContractError {
    /// No escrow is stored under the given id.
    EscrowNotFound,
    /// The escrow has already been released or refunded.
    InvalidState,
    /// The claimant is neither the depositor nor the beneficiary of the escrow.
    Unauthorized,
    /// The escrow already has an open dispute.
    DisputeAlreadyOpen,
    /// The dispute counter cannot be incremented any further.
    DisputeCountOverflow,
    /// No dispute is stored under the given id.
    DisputeNotFound,
    /// The dispute is no longer open.
    AlreadyResolved,
    /// The caller is not the resolver designated for the dispute.
    UnauthorizedResolver,
    /// The escrow behind the dispute has already been settled.
    AlreadySettled,
    /// The balance to spend from is smaller than the amount.
    InsufficientBalance,
    /// A balance would leave the range of `i128`.
    BalanceOverflow,
}

/// The contract's persistent state, as plain mathematical values.
#[verifier::ext_equal]
pub struct LedgerView {
    /// The address of the contract itself, which holds escrowed funds.
    pub contract: Address,
    /// Stored balances; an address without an entry holds 0.
    pub balances: Map<Address, i128>,
    /// Escrows by id.
    pub escrows: Map<u32, EscrowRecord>,
    /// Disputes in the order they were opened; dispute `id` is at position `id - 1`.
    pub disputes: Seq<DisputeRecord>,
    /// For each escrow with an open dispute, that dispute's id.
    pub open_disputes: Map<u32, u32>,
    /// Frozen accounts.
    pub frozen: Set<Address>,
    /// Events published so far, oldest first.
    pub events: Seq<ContractEvent>,
}

/// The balance that a balance map records for `a`, 0 where it has none.
pub open spec fn balance_in(balances: Map<Address, i128>, a: Address) -> i128 {
    if balances.contains_key(a) {
        balances[a]
    } else {
        0
    }
}

/// Takes `amount` from the balance of `from`.
pub open spec fn spend_spec(balances: Map<Address, i128>, from: Address, amount: i128) -> Result<
    Map<Address, i128>,
    ContractError,
> {
    let b = balance_in(balances, from);
    if b < amount {
        Err(ContractError::InsufficientBalance)
    } else if b - amount > i128::MAX {
        Err(ContractError::BalanceOverflow)
    } else {
        Ok(balances.insert(from, (b - amount) as i128))
    }
}

/// Adds `amount` to the balance of `to`.
pub open spec fn receive_spec(balances: Map<Address, i128>, to: Address, amount: i128) -> Result<
    Map<Address, i128>,
    ContractError,
> {
    let b = balance_in(balances, to);
    if b + amount > i128::MAX || b + amount < i128::MIN {
        Err(ContractError::BalanceOverflow)
    } else {
        Ok(balances.insert(to, (b + amount) as i128))
    }
}

impl LedgerView {
    pub open spec fn balance(self, a: Address) -> i128 {
        balance_in(self.balances, a)
    }

    /// The dispute stored under `id`, if any.
    pub open spec fn dispute(self, id: u32) -> Option<DisputeRecord> {
        if 1 <= id <= self.disputes.len() {
            Some(self.disputes[id - 1])
        } else {
            None
        }
    }

    /// The consistency that every reachable state has: dispute ids count up from 1,
    /// and the open-dispute index names exactly the open disputes, one per escrow.
    pub open spec fn valid(self) -> bool {
        &&& self.disputes.len() <= u32::MAX
        &&& forall|i: int| 0 <= i < self.disputes.len() ==> #[trigger] self.disputes[i].id == i + 1
        &&& forall|k: u32| #[trigger]
            self.open_disputes.contains_key(k) ==> {
                let d = self.open_disputes[k];
                &&& 1 <= d <= self.disputes.len()
                &&& self.disputes[d - 1].escrow_id == k
                &&& self.disputes[d - 1].status == DisputeStatus::Open
            }
        &&& forall|i: int|
            0 <= i < self.disputes.len() && #[trigger] self.disputes[i].status
                == DisputeStatus::Open ==> {
                &&& self.open_disputes.contains_key(self.disputes[i].escrow_id)
                &&& self.open_disputes[self.disputes[i].escrow_id] == i + 1
            }
    }
}

/// The open-dispute index that a list of disputes determines: each escrow with
/// an open dispute, to that dispute's id.
pub open spec fn open_index(disputes: Seq<DisputeRecord>) -> Map<u32, u32> {
    Map::new(
        |k: u32|
            exists|i: int|
                0 <= i < disputes.len() && disputes[i].status == DisputeStatus::Open
                    && #[trigger] disputes[i].escrow_id == k,
        |k: u32|
            disputes[choose|i: int|
                0 <= i < disputes.len() && disputes[i].status == DisputeStatus::Open
                    && #[trigger] disputes[i].escrow_id == k].id,
    )
}

/// In a valid state the open-dispute index is the one its disputes determine.
pub proof fn lemma_valid_open_index(s: LedgerView)
    requires
        s.valid(),
    ensures
        s.open_disputes == open_index(s.disputes),
{
    let m = open_index(s.disputes);
    assert forall|k: u32| #[trigger] s.open_disputes.contains_key(k) <==> m.contains_key(k) by {
        if s.open_disputes.contains_key(k) {
            let d = s.open_disputes[k];
            assert(s.disputes[d - 1].escrow_id == k);
        }
        if m.contains_key(k) {
            let i = choose|i: int|
                0 <= i < s.disputes.len() && s.disputes[i].status == DisputeStatus::Open
                    && #[trigger] s.disputes[i].escrow_id == k;
            assert(s.disputes[i].status == DisputeStatus::Open);
        }
    }
    assert forall|k: u32| #[trigger] m.contains_key(k) implies s.open_disputes[k] == m[k] by {
        let i = choose|i: int|
            0 <= i < s.disputes.len() && s.disputes[i].status == DisputeStatus::Open
                && #[trigger] s.disputes[i].escrow_id == k;
        assert(s.disputes[i].status == DisputeStatus::Open);
    }
    assert(s.open_disputes =~= m);
}

/// Everything a ledger keeps between calls, as plain lists: the form in which
/// it is stored and read back.
pub struct LedgerParts {
    pub contract: Address,
    pub balances: Vec<(Address, i128)>,
    pub escrows: Vec<(u32, EscrowRecord)>,
    pub disputes: Vec<DisputeRecord>,
    pub frozen: Vec<Address>,
}

/// Stored parts make a ledger when no key is listed twice, dispute ids count
/// up from 1 within the range of `u32`, and no escrow has two open disputes.
pub open spec fn parts_consistent(p: LedgerParts) -> bool {
    &&& keys_distinct(p.balances@)
    &&& keys_distinct(p.escrows@)
    &&& p.frozen@.no_duplicates()
    &&& p.disputes@.len() <= u32::MAX
    &&& forall|i: int| 0 <= i < p.disputes@.len() ==> #[trigger] p.disputes@[i].id == i + 1
    &&& forall|i: int, j: int|
        0 <= i < p.disputes@.len() && 0 <= j < p.disputes@.len() && p.disputes@[i].status
            == DisputeStatus::Open && p.disputes@[j].status == DisputeStatus::Open
            && #[trigger] p.disputes@[i].escrow_id == #[trigger] p.disputes@[j].escrow_id ==> i
            == j
}

/// The state that stored parts stand for, with no events published yet.
pub open spec fn parts_view(p: LedgerParts) -> LedgerView {
    LedgerView {
        contract: p.contract,
        balances: assoc_map(p.balances@),
        escrows: assoc_map(p.escrows@),
        disputes: p.disputes@,
        open_disputes: open_index(p.disputes@),
        frozen: p.frozen@.to_set(),
        events: Seq::empty(),
    }
}

/// The contract's persistent state: balances, escrows, disputes with their
/// per-escrow index, frozen accounts, and the events published so far.
pub struct Ledger {
    contract: Address,
    balances: Vec<(Address, i128)>,
    escrows: Vec<(u32, EscrowRecord)>,
    disputes: Vec<DisputeRecord>,
    open_disputes: Vec<(u32, u32)>,
    frozen: Vec<Address>,
    events: Vec<ContractEvent>,
}

impl View for Ledger {
    type V = LedgerView;

    closed spec fn view(&self) -> LedgerView {
        LedgerView {
            contract: self.contract,
            balances: assoc_map(self.balances@),
            escrows: assoc_map(self.escrows@),
            disputes: self.disputes@,
            open_disputes: assoc_map(self.open_disputes@),
            frozen: self.frozen@.to_set(),
            events: self.events@,
        }
    }
}

impl Ledger {
    /// Well-formedness: the lists behind the maps hold each key once,
    /// and the state is valid.
    pub closed spec fn inv(&self) -> bool {
        &&& keys_distinct(self.balances@)
        &&& keys_distinct(self.escrows@)
        &&& keys_distinct(self.open_disputes@)
        &&& self.frozen@.no_duplicates()
        &&& self@.valid()
    }

    /// Every well-formed ledger is in a valid state.
    pub proof fn lemma_inv_valid(&self)
        requires
            self.inv(),
        ensures
            self@.valid(),
    {
    }

    /// An empty ledger for the contract at `contract`.
    pub fn new(contract: Address) -> (l: Ledger)
        ensures
            l.inv(),
            l@ == (LedgerView {
                contract,
                balances: Map::empty(),
                escrows: Map::empty(),
                disputes: Seq::empty(),
                open_disputes: Map::empty(),
                frozen: Set::empty(),
                events: Seq::empty(),
            }),
    {
        let l = Ledger {
            contract,
            balances: Vec::new(),
            escrows: Vec::new(),
            disputes: Vec::new(),
            open_disputes: Vec::new(),
            frozen: Vec::new(),
            events: Vec::new(),
        };
        assert(l@.balances =~= Map::empty());
        assert(l@.escrows =~= Map::empty());
        assert(l@.open_disputes =~= Map::empty());
        assert(l@.frozen =~= Set::empty());
        l
    }

    /// The address of the contract itself.
    pub fn current_contract_address(&self) -> (a: Address)
        ensures
            a == self@.contract,
    {
        self.contract
    }

    /// The events published so far, oldest first.
    pub fn events(&self) -> (r: &Vec<ContractEvent>)
        ensures
            r@ == self@.events,
    {
        &self.events
    }

    /// Hands out the events published so far and forgets them.
    pub fn take_events(&mut self) -> (r: Vec<ContractEvent>)
        requires
            old(self).inv(),
        ensures
            final(self).inv(),
            r@ == old(self)@.events,
            final(self)@ == (LedgerView { events: Seq::empty(), ..old(self)@ }),
    {
        let mut out: Vec<ContractEvent> = Vec::new();
        std::mem::swap(&mut out, &mut self.events);
        out
    }

    /// Number of disputes opened so far (the dispute counter).
    pub fn dispute_count(&self) -> (n: usize)
        ensures
            n == self@.disputes.len(),
    {
        self.disputes.len()
    }

    pub(crate) fn emit(&mut self, ev: ContractEvent)
        requires
            old(self).inv(),
        ensures
            final(self).inv(),
            final(self)@ == (LedgerView { events: old(self)@.events.push(ev), ..old(self)@ }),
    {
        self.events.push(ev);
    }

    pub(crate) fn set_balance(&mut self, a: Address, v: i128)
        requires
            old(self).inv(),
        ensures
            final(self).inv(),
            final(self)@ == (LedgerView { balances: old(self)@.balances.insert(a, v), ..old(self)@ }),
    {
        match find_address_key(&self.balances, a) {
            Some(i) => {
                proof {
                    lemma_assoc_update(self.balances@, i as int, v);
                }
                self.balances.set(i, (a, v));
            },
            None => {
                proof {
                    lemma_assoc_missing(self.balances@, a);
                    lemma_assoc_push(self.balances@, a, v);
                }
                self.balances.push((a, v));
            },
        }
    }

    pub(crate) fn balance_of(&self, a: Address) -> (b: i128)
        requires
            self.inv(),
        ensures
            b == self@.balance(a),
    {
        match find_address_key(&self.balances, a) {
            Some(i) => {
                proof {
                    lemma_assoc_index(self.balances@, i as int);
                }
                self.balances[i].1
            },
            None => {
                proof {
                    lemma_assoc_missing(self.balances@, a);
                }
                0
            },
        }
    }

    pub(crate) fn escrow(&self, escrow_id: u32) -> (r: Option<EscrowRecord>)
        requires
            self.inv(),
        ensures
            r == self@.escrows.get(escrow_id),
    {
        match find_u32_key(&self.escrows, escrow_id) {
            Some(i) => {
                proof {
                    lemma_assoc_index(self.escrows@, i as int);
                }
                Some(self.escrows[i].1)
            },
            None => {
                proof {
                    lemma_assoc_missing(self.escrows@, escrow_id);
                }
                None
            },
        }
    }

    pub(crate) fn set_escrow(&mut self, escrow_id: u32, escrow: EscrowRecord)
        requires
            old(self).inv(),
        ensures
            final(self).inv(),
            final(self)@ == (LedgerView {
                escrows: old(self)@.escrows.insert(escrow_id, escrow),
                ..old(self)@
            }),
    {
        match find_u32_key(&self.escrows, escrow_id) {
            Some(i) => {
                proof {
                    lemma_assoc_update(self.escrows@, i as int, escrow);
                }
                self.escrows.set(i, (escrow_id, escrow));
            },
            None => {
                proof {
                    lemma_assoc_missing(self.escrows@, escrow_id);
                    lemma_assoc_push(self.escrows@, escrow_id, escrow);
                }
                self.escrows.push((escrow_id, escrow));
            },
        }
    }

    pub(crate) fn has_open_dispute(&self, escrow_id: u32) -> (r: bool)
        requires
            self.inv(),
        ensures
            r == self@.open_disputes.contains_key(escrow_id),
    {
        match find_u32_key(&self.open_disputes, escrow_id) {
            Some(i) => {
                proof {
                    lemma_assoc_index(self.open_disputes@, i as int);
                }
                true
            },
            None => {
                proof {
                    lemma_assoc_missing(self.open_disputes@, escrow_id);
                }
                false
            },
        }
    }

    pub(crate) fn dispute_at(&self, dispute_id: u32) -> (r: Option<DisputeRecord>)
        requires
            self.inv(),
        ensures
            r == self@.dispute(dispute_id),
    {
        if 1 <= dispute_id && (dispute_id as usize) <= self.disputes.len() {
            Some(self.disputes[(dispute_id - 1) as usize])
        } else {
            None
        }
    }

    /// Stores a newly opened dispute and indexes it under its escrow.
    pub(crate) fn record_new_dispute(&mut self, rec: DisputeRecord)
        requires
            old(self).inv(),
            old(self)@.disputes.len() < u32::MAX,
            rec.id == old(self)@.disputes.len() + 1,
            rec.status == DisputeStatus::Open,
            !old(self)@.open_disputes.contains_key(rec.escrow_id),
        ensures
            final(self).inv(),
            final(self)@ == (LedgerView {
                disputes: old(self)@.disputes.push(rec),
                open_disputes: old(self)@.open_disputes.insert(rec.escrow_id, rec.id),
                ..old(self)@
            }),
    {
        let ghost s = self@;
        proof {
            lemma_assoc_push(self.open_disputes@, rec.escrow_id, rec.id);
        }
        self.disputes.push(rec);
        self.open_disputes.push((rec.escrow_id, rec.id));
        let ghost t = self@;
        assert(t == LedgerView {
            disputes: s.disputes.push(rec),
            open_disputes: s.open_disputes.insert(rec.escrow_id, rec.id),
            ..s
        });
        assert forall|k: u32| #[trigger] t.open_disputes.contains_key(k) implies {
            let d = t.open_disputes[k];
            &&& 1 <= d <= t.disputes.len()
            &&& t.disputes[d - 1].escrow_id == k
            &&& t.disputes[d - 1].status == DisputeStatus::Open
        } by {
            if k != rec.escrow_id {
                assert(s.open_disputes.contains_key(k));
            }
        }
        assert forall|i: int|
            0 <= i < t.disputes.len() && #[trigger] t.disputes[i].status
                == DisputeStatus::Open implies {
            &&& t.open_disputes.contains_key(t.disputes[i].escrow_id)
            &&& t.open_disputes[t.disputes[i].escrow_id] == i + 1
        } by {
            if i < s.disputes.len() {
                assert(t.disputes[i] == s.disputes[i]);
                assert(s.open_disputes.contains_key(s.disputes[i].escrow_id));
            }
        }
    }

    /// Gives an open dispute its final status and drops it from the index.
    pub(crate) fn close_dispute(&mut self, dispute_id: u32, status: DisputeStatus)
        requires
            old(self).inv(),
            old(self)@.dispute(dispute_id) is Some,
            old(self)@.dispute(dispute_id)->0.status == DisputeStatus::Open,
            status != DisputeStatus::Open,
        ensures
            final(self).inv(),
            final(self)@ == ({
                let d = old(self)@.dispute(dispute_id)->0;
                LedgerView {
                    disputes: old(self)@.disputes.update(
                        dispute_id - 1,
                        DisputeRecord { status, ..d },
                    ),
                    open_disputes: old(self)@.open_disputes.remove(d.escrow_id),
                    ..old(self)@
                }
            }),
    {
        let ghost s = self@;
        let idx = (dispute_id - 1) as usize;
        let d = self.disputes[idx];
        assert(s.open_disputes.contains_key(d.escrow_id));
        let pos = match find_u32_key(&self.open_disputes, d.escrow_id) {
            Some(p) => p,
            None => {
                proof {
                    lemma_assoc_missing(self.open_disputes@, d.escrow_id);
                }
                vstd::pervasive::unreached()
            },
        };
        proof {
            lemma_assoc_remove(self.open_disputes@, pos as int);
        }
        self.open_disputes.remove(pos);
        self.disputes.set(idx, DisputeRecord { status, ..d });
        let ghost t = self@;
        let ghost nd = DisputeRecord { status, ..d };
        assert(t == LedgerView {
            disputes: s.disputes.update(dispute_id - 1, nd),
            open_disputes: s.open_disputes.remove(d.escrow_id),
            ..s
        });
        assert forall|k: u32| #[trigger] t.open_disputes.contains_key(k) implies {
            let e = t.open_disputes[k];
            &&& 1 <= e <= t.disputes.len()
            &&& t.disputes[e - 1].escrow_id == k
            &&& t.disputes[e - 1].status == DisputeStatus::Open
        } by {
            assert(s.open_disputes.contains_key(k));
            assert(k != d.escrow_id);
        }
        assert forall|i: int|
            0 <= i < t.disputes.len() && #[trigger] t.disputes[i].status
                == DisputeStatus::Open implies {
            &&& t.open_disputes.contains_key(t.disputes[i].escrow_id)
            &&& t.open_disputes[t.disputes[i].escrow_id] == i + 1
        } by {
            assert(i != idx);
            assert(t.disputes[i] == s.disputes[i]);
            assert(s.open_disputes.contains_key(s.disputes[i].escrow_id));
        }
    }

    pub(crate) fn frozen_contains(&self, a: Address) -> (r: bool)
        requires
            self.inv(),
        ensures
            r == self@.frozen.contains(a),
    {
        match find_address(&self.frozen, a) {
            Some(i) => {
                assert(self.frozen@[i as int] == a);
                true
            },
            None => false,
        }
    }

    pub(crate) fn add_frozen(&mut self, a: Address)
        requires
            old(self).inv(),
        ensures
            final(self).inv(),
            final(self)@ == (LedgerView { frozen: old(self)@.frozen.insert(a), ..old(self)@ }),
    {
        let ghost s = self@;
        match find_address(&self.frozen, a) {
            Some(i) => {
                assert(self.frozen@[i as int] == a);
                assert(s.frozen.insert(a) =~= s.frozen);
            },
            None => {
                proof {
                    self.frozen@.lemma_push_to_set_commute(a);
                }
                self.frozen.push(a);
                assert(self@.frozen =~= s.frozen.insert(a));
            },
        }
    }

    pub(crate) fn remove_frozen(&mut self, a: Address)
        requires
            old(self).inv(),
        ensures
            final(self).inv(),
            final(self)@ == (LedgerView { frozen: old(self)@.frozen.remove(a), ..old(self)@ }),
    {
        let ghost s = self@;
        let ghost old_seq = self.frozen@;
        match find_address(&self.frozen, a) {
            Some(i) => {
                self.frozen.remove(i);
                let ghost t = self.frozen@;
                assert forall|x: int| 0 <= x < t.len() implies #[trigger] t[x] == old_seq[if x
                    < i {
                    x
                } else {
                    x + 1
                }] by {}
                assert forall|x: Address| #[trigger] t.to_set().contains(x) <==> s.frozen.remove(
                    a,
                ).contains(x) by {
                    if t.to_set().contains(x) {
                        let j = choose|j: int| 0 <= j < t.len() && t[j] == x;
                        let j2 = if j < i { j } else { j + 1 };
                        assert(old_seq[j2] == x);
                        assert(old_seq.contains(x));
                        assert(j2 != i);
                    }
                    if s.frozen.remove(a).contains(x) {
                        let j = choose|j: int| 0 <= j < old_seq.len() && old_seq[j] == x;
                        assert(j != i);
                        let j2 = if j < i { j } else { j - 1 };
                        assert(t[j2] == x);
                        assert(t.contains(x));
                    }
                }
                assert(t.to_set() =~= s.frozen.remove(a));
                assert(t.no_duplicates()) by {
                    assert forall|x: int, y: int|
                        0 <= x < t.len() && 0 <= y < t.len() && x != y implies t[x] != t[y] by {
                        let x2 = if x < i { x } else { x + 1 };
                        let y2 = if y < i { y } else { y + 1 };
                        assert(t[x] == old_seq[x2]);
                        assert(t[y] == old_seq[y2]);
                    }
                }
            },
            None => {
                assert(!s.frozen.contains(a));
                assert(s.frozen.remove(a) =~= s.frozen);
            },
        }
    }
    /// Appends a dispute read back from storage, indexing it if it is open.
    fn restore_dispute(&mut self, rec: DisputeRecord)
        requires
            old(self).inv(),
            old(self)@.disputes.len() < u32::MAX,
            rec.id == old(self)@.disputes.len() + 1,
            rec.status == DisputeStatus::Open ==> !old(self)@.open_disputes.contains_key(
                rec.escrow_id,
            ),
        ensures
            final(self).inv(),
            final(self)@ == (LedgerView {
                disputes: old(self)@.disputes.push(rec),
                open_disputes: if rec.status == DisputeStatus::Open {
                    old(self)@.open_disputes.insert(rec.escrow_id, rec.id)
                } else {
                    old(self)@.open_disputes
                },
                ..old(self)@
            }),
    {
        if rec.status == DisputeStatus::Open {
            self.record_new_dispute(rec);
        } else {
            let ghost s = self@;
            self.disputes.push(rec);
            let ghost t = self@;
            assert forall|k: u32| #[trigger] t.open_disputes.contains_key(k) implies {
                let d = t.open_disputes[k];
                &&& 1 <= d <= t.disputes.len()
                &&& t.disputes[d - 1].escrow_id == k
                &&& t.disputes[d - 1].status == DisputeStatus::Open
            } by {
                assert(s.open_disputes.contains_key(k));
            }
            assert forall|i: int|
                0 <= i < t.disputes.len() && #[trigger] t.disputes[i].status
                    == DisputeStatus::Open implies {
                &&& t.open_disputes.contains_key(t.disputes[i].escrow_id)
                &&& t.open_disputes[t.disputes[i].escrow_id] == i + 1
            } by {
                assert(i < s.disputes.len());
                assert(t.disputes[i] == s.disputes[i]);
            }
        }
    }

    /// Rebuilds a ledger from stored parts; `None` exactly when the parts are
    /// inconsistent.
    pub fn from_parts(parts: LedgerParts) -> (r: Option<Ledger>)
        ensures
            r is Some <==> parts_consistent(parts),
            r matches Some(l) ==> l.inv() && l@ == parts_view(parts),
    {
        let ghost p = parts;
        let LedgerParts { contract, balances, escrows, disputes, frozen } = parts;
        let mut l = Ledger::new(contract);

        let mut i: usize = 0;
        while i < balances.len()
            invariant
                0 <= i <= balances.len(),
                p == parts,
                balances@ == p.balances@,
                l.inv(),
                keys_distinct(balances@.take(i as int)),
                l@ == (LedgerView {
                    contract,
                    balances: assoc_map(balances@.take(i as int)),
                    escrows: Map::empty(),
                    disputes: Seq::empty(),
                    open_disputes: Map::empty(),
                    frozen: Set::empty(),
                    events: Seq::empty(),
                }),
            decreases balances.len() - i,
        {
            let (a, v) = balances[i];
            let ghost pre = balances@.take(i as int);
            assert(balances@.take(i + 1) =~= pre.push((a, v)));
            match find_address_key(&l.balances, a) {
                Some(j) => {
                    proof {
                        lemma_assoc_index(l.balances@, j as int);
                        let w = choose|w: int| 0 <= w < pre.len() && #[trigger] pre[w].0 == a;
                        assert(p.balances@[w].0 == p.balances@[i as int].0);
                        assert(!keys_distinct(p.balances@));
                    }
                    return None;
                },
                None => {
                    proof {
                        lemma_assoc_missing(l.balances@, a);
                        lemma_assoc_push(pre, a, v);
                    }
                    l.set_balance(a, v);
                },
            }
            i = i + 1;
        }
        assert(balances@.take(balances.len() as int) =~= balances@);

        let mut i: usize = 0;
        while i < escrows.len()
            invariant
                0 <= i <= escrows.len(),
                p == parts,
                escrows@ == p.escrows@,
                balances@ == p.balances@,
                keys_distinct(balances@),
                l.inv(),
                keys_distinct(escrows@.take(i as int)),
                l@ == (LedgerView {
                    contract,
                    balances: assoc_map(balances@),
                    escrows: assoc_map(escrows@.take(i as int)),
                    disputes: Seq::empty(),
                    open_disputes: Map::empty(),
                    frozen: Set::empty(),
                    events: Seq::empty(),
                }),
            decreases escrows.len() - i,
        {
            let (k, rec) = escrows[i];
            let ghost pre = escrows@.take(i as int);
            assert(escrows@.take(i + 1) =~= pre.push((k, rec)));
            match find_u32_key(&l.escrows, k) {
                Some(j) => {
                    proof {
                        lemma_assoc_index(l.escrows@, j as int);
                        let w = choose|w: int| 0 <= w < pre.len() && #[trigger] pre[w].0 == k;
                        assert(p.escrows@[w].0 == p.escrows@[i as int].0);
                        assert(!keys_distinct(p.escrows@));
                    }
                    return None;
                },
                None => {
                    proof {
                        lemma_assoc_missing(l.escrows@, k);
                        lemma_assoc_push(pre, k, rec);
                    }
                    l.set_escrow(k, rec);
                },
            }
            i = i + 1;
        }
        assert(escrows@.take(escrows.len() as int) =~= escrows@);

        let mut i: usize = 0;
        while i < frozen.len()
            invariant
                0 <= i <= frozen.len(),
                p == parts,
                frozen@ == p.frozen@,
                escrows@ == p.escrows@,
                balances@ == p.balances@,
                keys_distinct(balances@),
                keys_distinct(escrows@),
                l.inv(),
                frozen@.take(i as int).no_duplicates(),
                l@ == (LedgerView {
                    contract,
                    balances: assoc_map(balances@),
                    escrows: assoc_map(escrows@),
                    disputes: Seq::empty(),
                    open_disputes: Map::empty(),
                    frozen: frozen@.take(i as int).to_set(),
                    events: Seq::empty(),
                }),
            decreases frozen.len() - i,
        {
            let a = frozen[i];
            let ghost pre = frozen@.take(i as int);
            assert(frozen@.take(i + 1) =~= pre.push(a));
            if l.frozen_contains(a) {
                proof {
                    let w = choose|w: int| 0 <= w < pre.len() && pre[w] == a;
                    assert(p.frozen@[w] == p.frozen@[i as int]);
                    assert(!p.frozen@.no_duplicates());
                }
                return None;
            }
            proof {
                pre.lemma_push_to_set_commute(a);
                assert(!pre.contains(a));
                assert(pre.push(a).no_duplicates()) by {
                    assert forall|x: int, y: int|
                        0 <= x < pre.len() + 1 && 0 <= y < pre.len() + 1 && x != y implies pre.push(
                        a,
                    )[x] != pre.push(a)[y] by {
                        if x < pre.len() && y == pre.len() {
                            assert(pre.contains(pre[x]));
                        }
                        if y < pre.len() && x == pre.len() {
                            assert(pre.contains(pre[y]));
                        }
                    }
                }
            }
            l.add_frozen(a);
            i = i + 1;
        }
        assert(frozen@.take(frozen.len() as int) =~= frozen@);

        let mut i: usize = 0;
        while i < disputes.len()
            invariant
                0 <= i <= disputes.len(),
                p == parts,
                disputes@ == p.disputes@,
                frozen@ == p.frozen@,
                escrows@ == p.escrows@,
                balances@ == p.balances@,
                keys_distinct(balances@),
                keys_distinct(escrows@),
                frozen@.no_duplicates(),
                l.inv(),
                l@.contract == contract,
                l@.balances == assoc_map(balances@),
                l@.escrows == assoc_map(escrows@),
                l@.frozen == frozen@.to_set(),
                l@.events == Seq::<ContractEvent>::empty(),
                l@.disputes == disputes@.take(i as int),
            decreases disputes.len() - i,
        {
            let rec = disputes[i];
            if i >= 0xffff_ffffusize || rec.id as usize != i + 1 {
                proof {
                    if i < 0xffff_ffffusize {
                        assert(p.disputes@[i as int].id != i + 1);
                    }
                }
                return None;
            }
            if rec.status == DisputeStatus::Open && l.has_open_dispute(rec.escrow_id) {
                proof {
                    let d = l@.open_disputes[rec.escrow_id];
                    let j = d - 1;
                    assert(l@.disputes[j] == disputes@[j]);
                    assert(p.disputes@[j].escrow_id == p.disputes@[i as int].escrow_id);
                    assert(p.disputes@[j].status == DisputeStatus::Open);
                    assert(j != i);
                }
                return None;
            }
            l.restore_dispute(rec);
            assert(disputes@.take(i + 1) =~= disputes@.take(i as int).push(rec));
            i = i + 1;
        }
        assert(disputes@.take(disputes.len() as int) =~= disputes@);
        proof {
            lemma_valid_open_index(l@);
            assert forall|a: int, b: int|
                0 <= a < disputes@.len() && 0 <= b < disputes@.len() && disputes@[a].status
                    == DisputeStatus::Open && disputes@[b].status == DisputeStatus::Open
                    && #[trigger] disputes@[a].escrow_id == #[trigger] disputes@[b].escrow_id implies a
                == b by {
                assert(l@.disputes[a].status == DisputeStatus::Open);
                assert(l@.disputes[b].status == DisputeStatus::Open);
            }
            assert(l@ =~= parts_view(p));
        }
        Some(l)
    }

    /// Hands out everything the ledger keeps between calls. Events are not
    /// kept: take them first.
    pub fn into_parts(self) -> (p: LedgerParts)
        requires
            self.inv(),
        ensures
            parts_consistent(p),
            parts_view(p) == (LedgerView { events: Seq::empty(), ..self@ }),
    {
        proof {
            lemma_valid_open_index(self@);
            let s = self@;
            assert forall|a: int, b: int|
                0 <= a < s.disputes.len() && 0 <= b < s.disputes.len() && s.disputes[a].status
                    == DisputeStatus::Open && s.disputes[b].status == DisputeStatus::Open
                    && #[trigger] s.disputes[a].escrow_id == #[trigger] s.disputes[b].escrow_id implies a
                == b by {
                assert(s.open_disputes.contains_key(s.disputes[a].escrow_id));
            }
        }
        let p = LedgerParts {
            contract: self.contract,
            balances: self.balances,
            escrows: self.escrows,
            disputes: self.disputes,
            frozen: self.frozen,
        };
        assert(parts_view(p) =~= (LedgerView { events: Seq::empty(), ..self@ }));
        p
    }

}

/// The escrow stored under `escrow_id`, if any.
pub fn get_escrow(e: &Ledger, escrow_id: u32) -> (r: Option<EscrowRecord>)
    requires
        e.inv(),
    ensures
        r == e@.escrows.get(escrow_id),
{
    e.escrow(escrow_id)
}

/// Stores `escrow` under `escrow_id`, replacing what was there.
pub fn write_escrow(e: &mut Ledger, escrow_id: u32, escrow: EscrowRecord)
    requires
        old(e).inv(),
    ensures
        final(e).inv(),
        final(e)@ == (LedgerView { escrows: old(e)@.escrows.insert(escrow_id, escrow), ..old(e)@ }),
{
    e.set_escrow(escrow_id, escrow);
}

/// The balance of `addr`; 0 for an address that has never held funds.
pub fn read_balance(e: &Ledger, addr: Address) -> (b: i128)
    requires
        e.inv(),
    ensures
        b == e@.balance(addr),
{
    e.balance_of(addr)
}

/// Credits `amount` to `addr`.
pub fn receive_balance(e: &mut Ledger, addr: Address, amount: i128) -> (r: Result<(), ContractError>)
    requires
        old(e).inv(),
    ensures
        final(e).inv(),
        match receive_spec(old(e)@.balances, addr, amount) {
            Ok(b) => r is Ok && final(e)@ == (LedgerView { balances: b, ..old(e)@ }),
            Err(err) => r == Err::<(), ContractError>(err) && final(e)@ == old(e)@,
        },
{
    let b = e.balance_of(addr);
    match b.checked_add(amount) {
        Some(nb) => {
            e.set_balance(addr, nb);
            Ok(())
        },
        None => Err(ContractError::BalanceOverflow),
    }
}

/// Debits `amount` from `addr`, which must hold at least that much.
pub fn spend_balance(e: &mut Ledger, addr: Address, amount: i128) -> (r: Result<(), ContractError>)
    requires
        old(e).inv(),
    ensures
        final(e).inv(),
        match spend_spec(old(e)@.balances, addr, amount) {
            Ok(b) => r is Ok && final(e)@ == (LedgerView { balances: b, ..old(e)@ }),
            Err(err) => r == Err::<(), ContractError>(err) && final(e)@ == old(e)@,
        },
{
    let b = e.balance_of(addr);
    if b < amount {
        return Err(ContractError::InsufficientBalance);
    }
    match b.checked_sub(amount) {
        Some(nb) => {
            e.set_balance(addr, nb);
            Ok(())
        },
        None => Err(ContractError::BalanceOverflow),
    }
}

} // verus!
