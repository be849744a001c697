# crowdpass

Verified logic of the CrowdPass Soroban contracts: a ticket NFT, a ticket
marketplace with royalties, DAO governance, and a multi-signature wallet
(with the input checks used when events are created).

- `src/` — the library, verified with Verus. Each contract is a state
  machine: a struct holding the contract's storage, a mathematical view of
  it, `*_step` spec functions that say what every entry point does, and the
  executable methods, each proved equal to its step and to keep the storage
  invariant (`wf`). Laws (`lemma_*`) relate several steps.
  Accounts are numbered (`AccountId`); the ledger time, token balances and
  supplies are passed in; transfers and calls that an entry point needs are
  returned. Host strings are held as their bytes, and the arguments of a
  proposed call as byte strings in the host's encoding.
- `tests/` — tests of the library.
- `app/` — the Soroban contracts around the library: storage, authorisation,
  token transfers, cross-contract calls, events, upgrades and pausing.
