# veritix_token

Escrow disputes and account freezes of the Veritix payment token, as a
verified library.

- `src/ledger.rs` – the contract's persistent state (`Ledger`) and its
  mathematical view (`LedgerView`): balances, escrows, disputes with their
  per-escrow index of open disputes, frozen accounts and published events;
  the escrow and balance storage operations; reading the state back from its
  stored parts.
- `src/dispute.rs` – opening, settling and resolving disputes, each specified
  by a spec function over `LedgerView` that the code is proved to follow.
- `src/freeze.rs` – freezing and unfreezing accounts.
- `src/laws.rs` – properties that span calls (ids in sequence, one open
  dispute per escrow, resolution is final, funds are conserved, ...).
- `src/assoc.rs` – association lists and the maps they stand for.
- `app/lib.rs` – the Soroban edge: authorization, storage, events, and the
  panics with which the contract rejects a call.
