//! Ticket NFT: event tickets as non-fungible tokens, with at most one ticket
//! per holder, transfer restrictions (global switch, cooldown, blocklist),
//! per-token metadata and original prices.
//!
//! The contract's storage is held in [`TicketNft`]; every entry point is a
//! method on it.  Authorising the minter or the owner is the host's work and
//! happens before a method is called; the ledger time is passed in.
use vstd::prelude::*;

use std::collections::HashMap;
use std::collections::HashSet;

use crate::{copy_bytes, AccountId};

verus! {

broadcast use vstd::std_specs::hash::group_hash_axioms;

#[derive(Clone, Copy, Debug, PartialEq, Eq, Structural)]
pub enum Error {
    UserAlreadyHasTicket,
    InvalidTokenId,
    Unauthorized,
    RecipientAlreadyHasTicket,
    NotInitialized,
    TransferDisabled,
    TransferCooldownActive,
    AddressBlocked,
}

impl Error {
    /// The number by which the contract reports this error.
    pub fn code(&self) -> (c: u32)
        ensures
            c == self.spec_code(),
    {
        match self {
            Error::UserAlreadyHasTicket => 1,
            Error::InvalidTokenId => 2,
            Error::Unauthorized => 3,
            Error::RecipientAlreadyHasTicket => 4,
            Error::NotInitialized => 5,
            Error::TransferDisabled => 6,
            Error::TransferCooldownActive => 7,
            Error::AddressBlocked => 8,
        }
    }

    pub open spec fn spec_code(&self) -> u32 {
        match self {
            Error::UserAlreadyHasTicket => 1,
            Error::InvalidTokenId => 2,
            Error::Unauthorized => 3,
            Error::RecipientAlreadyHasTicket => 4,
            Error::NotInitialized => 5,
            Error::TransferDisabled => 6,
            Error::TransferCooldownActive => 7,
            Error::AddressBlocked => 8,
        }
    }
}

/// The contract's storage as mathematical values.
pub struct TicketNftState {
    pub minter: AccountId,
    pub next_token_id: u128,
    pub name: Seq<u8>,
    pub symbol: Seq<u8>,
    pub base_uri: Seq<u8>,
    pub transfers_enabled: bool,
    pub transfer_cooldown: u64,
    pub transfer_fee_bps: u32,
    pub organizer: AccountId,
    pub owners: Map<u128, AccountId>,
    pub balances: Map<AccountId, u128>,
    pub token_uris: Map<u128, Seq<u8>>,
    pub last_transfer: Map<u128, u64>,
    pub blocklist: Set<AccountId>,
    pub original_prices: Map<u128, i128>,
}

/// Ticket NFT Contract
///
/// Minimal NFT implementation for event tickets.
/// Each user can only hold one ticket per event.
///
/// The fields are the storage entries, public so that a host can load and
/// save them; the methods require and keep [`TicketNft::wf`].  The name, the
/// symbol and the URIs are strings held as their bytes, whatever they are.
pub struct TicketNft {
    pub minter: AccountId,
    pub next_token_id: u128,
    pub name: Vec<u8>,
    pub symbol: Vec<u8>,
    pub base_uri: Vec<u8>,
    pub transfers_enabled: bool,
    pub transfer_cooldown: u64,
    pub transfer_fee_bps: u32,
    pub organizer: AccountId,
    pub owners: HashMap<u128, AccountId>,
    pub balances: HashMap<AccountId, u128>,
    pub token_uris: HashMap<u128, Vec<u8>>,
    pub last_transfer: HashMap<u128, u64>,
    pub blocklist: HashSet<AccountId>,
    pub original_prices: HashMap<u128, i128>,
}

impl View for TicketNft {
    type V = TicketNftState;

    closed spec fn view(&self) -> TicketNftState {
        TicketNftState {
            minter: self.minter,
            next_token_id: self.next_token_id,
            name: self.name@,
            symbol: self.symbol@,
            base_uri: self.base_uri@,
            transfers_enabled: self.transfers_enabled,
            transfer_cooldown: self.transfer_cooldown,
            transfer_fee_bps: self.transfer_fee_bps,
            organizer: self.organizer,
            owners: self.owners@,
            balances: self.balances@,
            token_uris: self.token_uris@.map_values(|u: Vec<u8>| u@),
            last_transfer: self.last_transfer@,
            blocklist: self.blocklist@,
            original_prices: self.original_prices@,
        }
    }
}

// ---------------------------------------------------------------------------
// The contract as a state machine on TicketNftState
// ---------------------------------------------------------------------------

/// The storage that construction writes: the next token is number 1,
/// transfers are enabled without cooldown or fee, and the minter is the
/// organizer.
pub open spec fn constructed(
    minter: AccountId,
    name: Seq<u8>,
    symbol: Seq<u8>,
    base_uri: Seq<u8>,
) -> TicketNftState {
    TicketNftState {
        minter,
        next_token_id: 1,
        name,
        symbol,
        base_uri,
        transfers_enabled: true,
        transfer_cooldown: 0,
        transfer_fee_bps: 0,
        organizer: minter,
        owners: Map::empty(),
        balances: Map::empty(),
        token_uris: Map::empty(),
        last_transfer: Map::empty(),
        blocklist: Set::empty(),
        original_prices: Map::empty(),
    }
}

/// Number of tickets `a` holds (0 when nothing is recorded).
pub open spec fn balance(s: TicketNftState, a: AccountId) -> u128 {
    if s.balances.contains_key(a) {
        s.balances[a]
    } else {
        0
    }
}

/// Whether token `t` exists and is not burned.
pub open spec fn is_valid(s: TicketNftState, t: u128) -> bool {
    s.owners.contains_key(t)
}

/// What every reachable storage satisfies: token numbers are handed out from
/// 1 upwards; a holder's balance is 1 exactly when it owns a token and 0
/// otherwise; and no holder owns two tokens.
pub open spec fn state_inv(s: TicketNftState) -> bool {
    &&& s.next_token_id >= 1
    &&& forall|t: u128| #[trigger] s.owners.contains_key(t) ==> 1 <= t < s.next_token_id
    &&& forall|t: u128| #[trigger]
        s.owners.contains_key(t) ==> s.balances.contains_key(s.owners[t]) && s.balances[s.owners[t]]
            == 1
    &&& forall|a: AccountId| #[trigger] s.balances.contains_key(a) ==> s.balances[a] <= 1
    &&& forall|a: AccountId| #[trigger]
        s.balances.contains_key(a) && s.balances[a] == 1 ==> exists|t: u128|
            s.owners.contains_key(t) && s.owners[t] == a
    &&& forall|t1: u128, t2: u128|
        #[trigger] s.owners.contains_key(t1) && #[trigger] s.owners.contains_key(t2) && s.owners[t1]
            == s.owners[t2] ==> t1 == t2
}

/// The invariant depends only on the token numbers, the owners and the
/// balances.
proof fn lemma_inv_frame(s: TicketNftState, s2: TicketNftState)
    requires
        state_inv(s),
        s2.next_token_id == s.next_token_id,
        s2.owners == s.owners,
        s2.balances == s.balances,
    ensures
        state_inv(s2),
{
    assert forall|a: AccountId| #[trigger]
        s2.balances.contains_key(a) && s2.balances[a] == 1 implies exists|t: u128|
        s2.owners.contains_key(t) && s2.owners[t] == a by {
        let t = choose|t: u128| s.owners.contains_key(t) && s.owners[t] == a;
        assert(s2.owners.contains_key(t) && s2.owners[t] == a);
    }
}

/// Minting the next token to `recipient`, who must not hold a ticket yet.
pub open spec fn mint_step(s: TicketNftState, recipient: AccountId, now: u64) -> (
    TicketNftState,
    Result<u128, Error>,
) {
    if balance(s, recipient) > 0 {
        (s, Err(Error::UserAlreadyHasTicket))
    } else {
        let t = s.next_token_id;
        (
            TicketNftState {
                next_token_id: (t + 1) as u128,
                owners: s.owners.insert(t, recipient),
                balances: s.balances.insert(recipient, 1),
                last_transfer: s.last_transfer.insert(t, now),
                ..s
            },
            Ok(t),
        )
    }
}

/// The error that stops a transfer of token `t` from `from` to `to` at
/// `now`, if any.
pub open spec fn transfer_error(
    s: TicketNftState,
    from: AccountId,
    to: AccountId,
    t: u128,
    now: u64,
) -> Option<Error> {
    if !is_valid(s, t) {
        Some(Error::InvalidTokenId)
    } else if s.owners[t] != from {
        Some(Error::Unauthorized)
    } else if balance(s, to) > 0 {
        Some(Error::RecipientAlreadyHasTicket)
    } else if !s.transfers_enabled {
        Some(Error::TransferDisabled)
    } else if s.blocklist.contains(from) || s.blocklist.contains(to) {
        Some(Error::AddressBlocked)
    } else if s.transfer_cooldown > 0 && now < last_transfer_of(s, t) + s.transfer_cooldown {
        Some(Error::TransferCooldownActive)
    } else {
        None
    }
}

/// Whether a transfer of token `t` from `from` to `to` passes every check
/// that comes before the cooldown: the token exists and belongs to `from`,
/// `to` holds no ticket, transfers are enabled and neither party is blocked.
pub open spec fn transfer_checks_pass(s: TicketNftState, from: AccountId, to: AccountId, t: u128) -> bool {
    &&& is_valid(s, t)
    &&& s.owners[t] == from
    &&& balance(s, to) == 0
    &&& s.transfers_enabled
    &&& !s.blocklist.contains(from)
    &&& !s.blocklist.contains(to)
}

/// When token `t` last changed hands (0 when nothing is recorded).
pub open spec fn last_transfer_of(s: TicketNftState, t: u128) -> u64 {
    if s.last_transfer.contains_key(t) {
        s.last_transfer[t]
    } else {
        0
    }
}

/// Moving token `t` from `from` to `to` at `now`.
pub open spec fn transfer_step(
    s: TicketNftState,
    from: AccountId,
    to: AccountId,
    t: u128,
    now: u64,
) -> (TicketNftState, Result<(), Error>) {
    match transfer_error(s, from, to, t, now) {
        Some(e) => (s, Err(e)),
        None => (
            TicketNftState {
                owners: s.owners.insert(t, to),
                last_transfer: s.last_transfer.insert(t, now),
                balances: s.balances.insert(from, 0).insert(to, 1),
                ..s
            },
            Ok(()),
        ),
    }
}

/// Burning token `t`: its owner no longer holds a ticket.
pub open spec fn burn_step(s: TicketNftState, t: u128) -> (TicketNftState, Result<(), Error>) {
    if !is_valid(s, t) {
        (s, Err(Error::InvalidTokenId))
    } else {
        (
            TicketNftState {
                owners: s.owners.remove(t),
                balances: s.balances.insert(s.owners[t], 0),
                ..s
            },
            Ok(()),
        )
    }
}

/// The metadata URI of token `t`: its own when one was set, else the base.
pub open spec fn token_uri_of(s: TicketNftState, t: u128) -> Seq<u8> {
    if s.token_uris.contains_key(t) {
        s.token_uris[t]
    } else {
        s.base_uri
    }
}

/// Setting the metadata URI of token `t`.
pub open spec fn set_token_uri_step(s: TicketNftState, t: u128, uri: Seq<u8>) -> (
    TicketNftState,
    Result<(), Error>,
) {
    if !is_valid(s, t) {
        (s, Err(Error::InvalidTokenId))
    } else {
        (TicketNftState { token_uris: s.token_uris.insert(t, uri), ..s }, Ok(()))
    }
}

/// Setting the original price of token `t`.
pub open spec fn set_original_price_step(s: TicketNftState, t: u128, price: i128) -> (
    TicketNftState,
    Result<(), Error>,
) {
    if !is_valid(s, t) {
        (s, Err(Error::InvalidTokenId))
    } else {
        (TicketNftState { original_prices: s.original_prices.insert(t, price), ..s }, Ok(()))
    }
}

/// Putting `a` on the blocklist or taking it off.
pub open spec fn set_blocklist_step(s: TicketNftState, a: AccountId, blocked: bool) -> TicketNftState {
    TicketNftState {
        blocklist: if blocked {
            s.blocklist.insert(a)
        } else {
            s.blocklist.remove(a)
        },
        ..s
    }
}

/// An entry point that changes the storage, with its arguments.
pub enum TicketNftOp {
    Mint { recipient: AccountId, now: u64 },
    Transfer { from: AccountId, to: AccountId, token_id: u128, now: u64 },
    Burn { token_id: u128 },
    SetTokenUri { token_id: u128, uri: Seq<u8> },
    SetTransferRestrictions { enabled: bool, cooldown: u64, fee_bps: u32 },
    SetOrganizer { organizer: AccountId },
    SetBlocklist { address: AccountId, blocked: bool },
    SetOriginalPrice { token_id: u128, price: i128 },
}

/// The storage after operation `op`, whether it succeeds or fails.
pub open spec fn apply_op(s: TicketNftState, op: TicketNftOp) -> TicketNftState {
    match op {
        TicketNftOp::Mint { recipient, now } => mint_step(s, recipient, now).0,
        TicketNftOp::Transfer { from, to, token_id, now } => transfer_step(
            s,
            from,
            to,
            token_id,
            now,
        ).0,
        TicketNftOp::Burn { token_id } => burn_step(s, token_id).0,
        TicketNftOp::SetTokenUri { token_id, uri } => set_token_uri_step(s, token_id, uri).0,
        TicketNftOp::SetTransferRestrictions { enabled, cooldown, fee_bps } => TicketNftState {
            transfers_enabled: enabled,
            transfer_cooldown: cooldown,
            transfer_fee_bps: fee_bps,
            ..s
        },
        TicketNftOp::SetOrganizer { organizer } => TicketNftState { organizer, ..s },
        TicketNftOp::SetBlocklist { address, blocked } => set_blocklist_step(s, address, blocked),
        TicketNftOp::SetOriginalPrice { token_id, price } => set_original_price_step(
            s,
            token_id,
            price,
        ).0,
    }
}

/// The storage after the operations `ops`, in order.
pub open spec fn run_ops(s: TicketNftState, ops: Seq<TicketNftOp>) -> TicketNftState
    decreases ops.len(),
{
    if ops.len() == 0 {
        s
    } else {
        apply_op(run_ops(s, ops.drop_last()), ops.last())
    }
}

/// Whether operation `op` is one that the contract carries out on `s`
/// without running out of token numbers (a mint that goes through needs a
/// next number below the largest).
pub open spec fn op_fits(s: TicketNftState, op: TicketNftOp) -> bool {
    match op {
        TicketNftOp::Mint { recipient, .. } => balance(s, recipient) == 0 ==> s.next_token_id
            < u128::MAX,
        _ => true,
    }
}

/// Whether every operation of `ops` fits the storage it is applied to.
pub open spec fn run_fits(s: TicketNftState, ops: Seq<TicketNftOp>) -> bool
    decreases ops.len(),
{
    if ops.len() == 0 {
        true
    } else {
        run_fits(s, ops.drop_last()) && op_fits(run_ops(s, ops.drop_last()), ops.last())
    }
}

// ---------------------------------------------------------------------------
// Laws
// ---------------------------------------------------------------------------

/// One ticket per holder: a balance is 0 or 1, it is 1 exactly when the
/// holder owns a valid token, and two valid tokens never share an owner.
pub proof fn lemma_one_ticket_per_holder(s: TicketNftState, a: AccountId, t1: u128, t2: u128)
    requires
        state_inv(s),
    ensures
        balance(s, a) <= 1,
        balance(s, a) == 1 <==> exists|t: u128| #[trigger] s.owners.contains_key(t) && s.owners[t] == a,
        is_valid(s, t1) && is_valid(s, t2) && s.owners[t1] == s.owners[t2] ==> t1 == t2,
{
    if exists|t: u128| #[trigger] s.owners.contains_key(t) && s.owners[t] == a {
        let t = choose|t: u128| #[trigger] s.owners.contains_key(t) && s.owners[t] == a;
        assert(s.balances.contains_key(s.owners[t]));
    }
    if s.balances.contains_key(a) {
        assert(s.balances[a] <= 1);
    }
}

/// A minted token is new, belongs to the recipient, who then holds exactly
/// one ticket; minting to the same recipient again fails.
pub proof fn lemma_mint_read_back(s: TicketNftState, recipient: AccountId, now: u64, later: u64)
    requires
        state_inv(s),
        s.next_token_id < u128::MAX,
        mint_step(s, recipient, now).1 is Ok,
    ensures
        ({
            let (after, res) = mint_step(s, recipient, now);
            let t = res->Ok_0;
            &&& t == s.next_token_id
            &&& !is_valid(s, t)
            &&& is_valid(after, t) && after.owners[t] == recipient
            &&& balance(after, recipient) == 1
            &&& after.next_token_id == t + 1
            &&& mint_step(after, recipient, later).1 == Err::<u128, Error>(Error::UserAlreadyHasTicket)
        }),
{
}

/// Token numbers are never handed out twice, even after a burn: along any
/// operations the next number never goes down, so a mint after them never
/// returns a number that was handed out before them.
pub proof fn lemma_token_numbers_never_reused(
    s: TicketNftState,
    ops: Seq<TicketNftOp>,
    recipient: AccountId,
    now: u64,
    earlier: u128,
)
    requires
        run_fits(s, ops),
        earlier < s.next_token_id,
    ensures
        s.next_token_id <= run_ops(s, ops).next_token_id,
        mint_step(run_ops(s, ops), recipient, now).1 != Ok::<u128, Error>(earlier),
    decreases ops.len(),
{
    if ops.len() > 0 {
        lemma_token_numbers_never_reused(s, ops.drop_last(), recipient, now, earlier);
    }
}

/// Minting depends only on whether the recipient already holds a ticket:
/// whatever the transfer restrictions, the blocklist, the organizer or the
/// prices, a recipient without a ticket gets the next token number, owns it
/// and then holds one ticket, and a recipient with a ticket is refused with
/// `UserAlreadyHasTicket` and nothing changes.
pub proof fn lemma_mint_depends_only_on_holding(s: TicketNftState, recipient: AccountId, now: u64)
    requires
        state_inv(s),
        s.next_token_id < u128::MAX,
    ensures
        ({
            let (after, res) = mint_step(s, recipient, now);
            &&& balance(s, recipient) == 0 ==> {
                &&& res == Ok::<u128, Error>(s.next_token_id)
                &&& after.owners.contains_key(s.next_token_id)
                &&& after.owners[s.next_token_id] == recipient
                &&& balance(after, recipient) == 1
                &&& after.next_token_id == s.next_token_id + 1
                &&& after.transfers_enabled == s.transfers_enabled
                &&& after.blocklist == s.blocklist
            }
            &&& balance(s, recipient) != 0 ==> res == Err::<u128, Error>(Error::UserAlreadyHasTicket)
                && after == s
        }),
{
}

/// When a transfer goes through: exactly when the token exists and belongs
/// to `from`, `to` holds no ticket, transfers are enabled, neither party is
/// blocked, and either there is no cooldown or `now` is at least the
/// cooldown past the token's last move (its mint or last transfer, or 0 when
/// none is recorded).  The transfer records `now` as the token's last move.
pub proof fn lemma_transfer_rules(
    s: TicketNftState,
    from: AccountId,
    to: AccountId,
    t: u128,
    now: u64,
)
    requires
        state_inv(s),
    ensures
        ({
            let last = if s.last_transfer.contains_key(t) {
                s.last_transfer[t] as int
            } else {
                0
            };
            let (after, res) = transfer_step(s, from, to, t, now);
            &&& res is Ok <==> {
                &&& s.owners.contains_key(t)
                &&& s.owners[t] == from
                &&& !(s.balances.contains_key(to) && s.balances[to] > 0)
                &&& s.transfers_enabled
                &&& !s.blocklist.contains(from)
                &&& !s.blocklist.contains(to)
                &&& (s.transfer_cooldown == 0 || now >= last + s.transfer_cooldown)
            }
            &&& res is Ok ==> after.last_transfer.contains_key(t) && after.last_transfer[t] == now
                && after.owners[t] == to
            &&& res is Err ==> after == s
        }),
{
}

/// Burning succeeds exactly for a token that exists; afterwards the token no
/// longer exists and its owner holds no ticket, and the next token number is
/// unchanged.
pub proof fn lemma_burn_rules(s: TicketNftState, t: u128)
    requires
        state_inv(s),
    ensures
        ({
            let (after, res) = burn_step(s, t);
            &&& res is Ok <==> s.owners.contains_key(t)
            &&& res is Ok ==> !after.owners.contains_key(t) && balance(after, s.owners[t]) == 0
                && after.next_token_id == s.next_token_id
            &&& res is Err ==> res == Err::<(), Error>(Error::InvalidTokenId) && after == s
        }),
{
}

/// A transfer moves the token and the ticket count from `from` to `to` and
/// leaves every other token with its owner.
pub proof fn lemma_transfer_moves_ticket(
    s: TicketNftState,
    from: AccountId,
    to: AccountId,
    t: u128,
    now: u64,
)
    requires
        state_inv(s),
        transfer_step(s, from, to, t, now).1 is Ok,
    ensures
        ({
            let after = transfer_step(s, from, to, t, now).0;
            &&& after.owners[t] == to
            &&& balance(after, from) == 0
            &&& balance(after, to) == 1
            &&& from != to
            &&& forall|u: u128| u != t ==> (#[trigger] after.owners.contains_key(u)
                == s.owners.contains_key(u) && (s.owners.contains_key(u) ==> after.owners[u]
                == s.owners[u]))
        }),
{
}

/// A burned token is gone for good: it is no longer valid, its owner holds
/// no ticket, and transferring or burning it again fails with
/// `InvalidTokenId`.
pub proof fn lemma_burned_token_is_gone(
    s: TicketNftState,
    t: u128,
    from: AccountId,
    to: AccountId,
    now: u64,
)
    requires
        burn_step(s, t).1 is Ok,
    ensures
        ({
            let after = burn_step(s, t).0;
            &&& !is_valid(after, t)
            &&& balance(after, s.owners[t]) == 0
            &&& transfer_step(after, from, to, t, now).1 == Err::<(), Error>(Error::InvalidTokenId)
            &&& burn_step(after, t).1 == Err::<(), Error>(Error::InvalidTokenId)
        }),
{
}

/// The URI set for a token is the one read back for it; other tokens keep
/// theirs.
pub proof fn lemma_token_uri_read_back(s: TicketNftState, t: u128, uri: Seq<u8>, other: u128)
    requires
        set_token_uri_step(s, t, uri).1 is Ok,
        other != t,
    ensures
        token_uri_of(set_token_uri_step(s, t, uri).0, t) == uri,
        token_uri_of(set_token_uri_step(s, t, uri).0, other) == token_uri_of(s, other),
{
}

/// Blocking an address blocks it and stops transfers to and from it;
/// unblocking it lifts the block.
pub proof fn lemma_blocklist_read_back(
    s: TicketNftState,
    a: AccountId,
    other: AccountId,
    t: u128,
    now: u64,
)
    requires
        a != other,
    ensures
        set_blocklist_step(s, a, true).blocklist.contains(a),
        !set_blocklist_step(s, a, false).blocklist.contains(a),
        set_blocklist_step(s, a, true).blocklist.contains(other) == s.blocklist.contains(other),
        set_blocklist_step(s, a, false).blocklist.contains(other) == s.blocklist.contains(other),
        transfer_step(set_blocklist_step(s, a, true), a, other, t, now).1 is Err,
        transfer_step(set_blocklist_step(s, a, true), other, a, t, now).1 is Err,
{
}

impl TicketNft {
    /// Whether the storage is one that the contract can reach.
    pub open spec fn wf(&self) -> bool {
        state_inv(self@)
    }

    /// Initialize the NFT contract with a minter address
    pub fn new(minter: AccountId, name: Vec<u8>, symbol: Vec<u8>, base_uri: Vec<u8>) -> (s: Self)
        ensures
            s@ == constructed(minter, name@, symbol@, base_uri@),
            s.wf(),
    {
        let s = TicketNft {
            minter,
            next_token_id: 1,
            name,
            symbol,
            base_uri,
            transfers_enabled: true,
            transfer_cooldown: 0,
            transfer_fee_bps: 0,
            organizer: minter,
            owners: HashMap::new(),
            balances: HashMap::new(),
            token_uris: HashMap::new(),
            last_transfer: HashMap::new(),
            blocklist: HashSet::new(),
            original_prices: HashMap::new(),
        };
        proof {
            assert(s@.token_uris =~= Map::<u128, Seq<u8>>::empty());
        }
        s
    }

    /// Mint a new ticket NFT to the recipient at time `now`; returns its
    /// token number.
    pub fn mint_ticket_nft(&mut self, recipient: AccountId, now: u64) -> (res: Result<u128, Error>)
        requires
            old(self).wf(),
            balance(old(self)@, recipient) == 0 ==> old(self)@.next_token_id < u128::MAX,
        ensures
            final(self).wf(),
            (final(self)@, res) == mint_step(old(self)@, recipient, now),
    {
        if self.balance_of(recipient) > 0 {
            return Err(Error::UserAlreadyHasTicket);
        }
        let token_id = self.next_token_id;
        let ghost s = self@;
        self.owners.insert(token_id, recipient);
        self.balances.insert(recipient, 1);
        self.next_token_id = token_id + 1;
        self.last_transfer.insert(token_id, now);
        proof {
            let (post, _) = mint_step(s, recipient, now);
            assert(self@ == post);
            assert(!s.owners.contains_key(token_id));
            assert forall|a: AccountId| #[trigger]
                post.balances.contains_key(a) && post.balances[a] == 1 implies exists|t: u128|
                post.owners.contains_key(t) && post.owners[t] == a by {
                if a == recipient {
                    assert(post.owners.contains_key(token_id) && post.owners[token_id] == a);
                } else {
                    assert(s.balances.contains_key(a) && s.balances[a] == 1);
                    let t = choose|t: u128| s.owners.contains_key(t) && s.owners[t] == a;
                    assert(post.owners.contains_key(t) && post.owners[t] == a);
                }
            }
            assert forall|t: u128| #[trigger] post.owners.contains_key(t) implies post.balances.contains_key(
                post.owners[t],
            ) && post.balances[post.owners[t]] == 1 by {
                if t != token_id {
                    assert(s.owners.contains_key(t));
                }
            }
            assert forall|t1: u128, t2: u128|
                #[trigger] post.owners.contains_key(t1) && #[trigger] post.owners.contains_key(t2)
                    && post.owners[t1] == post.owners[t2] implies t1 == t2 by {
                if t1 != token_id && t2 == token_id {
                    assert(s.owners.contains_key(t1));
                } else if t1 == token_id && t2 != token_id {
                    assert(s.owners.contains_key(t2));
                }
            }
        }
        Ok(token_id)
    }

    /// Get the owner of a token
    pub fn owner_of(&self, token_id: u128) -> (res: Result<AccountId, Error>)
        ensures
            res == (if is_valid(self@, token_id) {
                Ok::<AccountId, Error>(self@.owners[token_id])
            } else {
                Err::<AccountId, Error>(Error::InvalidTokenId)
            }),
    {
        match self.owners.get(&token_id) {
            Some(o) => Ok(*o),
            None => Err(Error::InvalidTokenId),
        }
    }

    /// Get the balance of an owner
    pub fn balance_of(&self, owner: AccountId) -> (res: u128)
        ensures
            res == balance(self@, owner),
    {
        match self.balances.get(&owner) {
            Some(b) => *b,
            None => 0,
        }
    }

    /// Transfer a ticket NFT from one address to another at time `now`.
    ///
    /// Enforces the one-ticket-per-user rule for the recipient.
    pub fn transfer_from(&mut self, from: AccountId, to: AccountId, token_id: u128, now: u64) -> (res:
        Result<(), Error>)
        requires
            old(self).wf(),
            old(self)@.transfer_cooldown > 0 && transfer_checks_pass(
                old(self)@,
                from,
                to,
                token_id,
            ) ==> last_transfer_of(old(self)@, token_id) + old(self)@.transfer_cooldown <= u64::MAX,
        ensures
            final(self).wf(),
            (final(self)@, res) == transfer_step(old(self)@, from, to, token_id, now),
    {
        if !self.is_valid(token_id) {
            return Err(Error::InvalidTokenId);
        }
        let owner = self.owner_of(token_id)?;
        if owner != from {
            return Err(Error::Unauthorized);
        }
        if self.balance_of(to) > 0 {
            return Err(Error::RecipientAlreadyHasTicket);
        }
        if !self.transfers_enabled {
            return Err(Error::TransferDisabled);
        }
        if self.blocklist.contains(&from) || self.blocklist.contains(&to) {
            return Err(Error::AddressBlocked);
        }
        if self.transfer_cooldown > 0 {
            let last = match self.last_transfer.get(&token_id) {
                Some(t) => *t,
                None => 0,
            };
            if now < last + self.transfer_cooldown {
                return Err(Error::TransferCooldownActive);
            }
        }
        let ghost s = self@;
        self.owners.insert(token_id, to);
        self.last_transfer.insert(token_id, now);
        self.balances.insert(from, 0);
        self.balances.insert(to, 1);
        proof {
            let (post, _) = transfer_step(s, from, to, token_id, now);
            assert(self@ == post);
            assert(from != to);
            assert forall|a: AccountId| #[trigger]
                post.balances.contains_key(a) && post.balances[a] == 1 implies exists|t: u128|
                post.owners.contains_key(t) && post.owners[t] == a by {
                if a == to {
                    assert(post.owners.contains_key(token_id) && post.owners[token_id] == a);
                } else {
                    assert(s.balances.contains_key(a) && s.balances[a] == 1);
                    let t = choose|t: u128| s.owners.contains_key(t) && s.owners[t] == a;
                    assert(t != token_id);
                    assert(post.owners.contains_key(t) && post.owners[t] == a);
                }
            }
            assert forall|t: u128| #[trigger] post.owners.contains_key(t) implies post.balances.contains_key(
                post.owners[t],
            ) && post.balances[post.owners[t]] == 1 by {
                if t != token_id {
                    assert(s.owners.contains_key(t));
                    assert(s.owners[t] != from);
                }
            }
            assert forall|t1: u128, t2: u128|
                #[trigger] post.owners.contains_key(t1) && #[trigger] post.owners.contains_key(t2)
                    && post.owners[t1] == post.owners[t2] implies t1 == t2 by {
                if t1 != token_id && t2 == token_id {
                    assert(s.owners.contains_key(t1));
                } else if t1 == token_id && t2 != token_id {
                    assert(s.owners.contains_key(t2));
                }
            }
        }
        Ok(())
    }

    /// Burn a ticket NFT, removing it from existence
    pub fn burn(&mut self, token_id: u128) -> (res: Result<(), Error>)
        requires
            old(self).wf(),
        ensures
            final(self).wf(),
            (final(self)@, res) == burn_step(old(self)@, token_id),
    {
        let owner = self.owner_of(token_id)?;
        let ghost s = self@;
        self.owners.remove(&token_id);
        self.balances.insert(owner, 0);
        proof {
            let (post, _) = burn_step(s, token_id);
            assert(self@ == post);
            assert forall|a: AccountId| #[trigger]
                post.balances.contains_key(a) && post.balances[a] == 1 implies exists|t: u128|
                post.owners.contains_key(t) && post.owners[t] == a by {
                assert(a != owner);
                assert(s.balances.contains_key(a) && s.balances[a] == 1);
                let t = choose|t: u128| s.owners.contains_key(t) && s.owners[t] == a;
                assert(t != token_id);
                assert(post.owners.contains_key(t) && post.owners[t] == a);
            }
            assert forall|t: u128| #[trigger] post.owners.contains_key(t) implies post.balances.contains_key(
                post.owners[t],
            ) && post.balances[post.owners[t]] == 1 by {
                assert(s.owners.contains_key(t));
                assert(t != token_id);
                assert(s.owners[t] != owner);
            }
        }
        Ok(())
    }

    /// Check if a token is valid (exists and not burned)
    pub fn is_valid(&self, token_id: u128) -> (res: bool)
        ensures
            res == is_valid(self@, token_id),
    {
        self.owners.contains_key(&token_id)
    }

    /// Get the minter address
    pub fn get_minter(&self) -> (res: Result<AccountId, Error>)
        ensures
            res == Ok::<AccountId, Error>(self@.minter),
    {
        Ok(self.minter)
    }

    /// Get the contract name
    pub fn name(&self) -> (res: Vec<u8>)
        ensures
            res@ == self@.name,
    {
        copy_bytes(&self.name)
    }

    /// Get the contract symbol
    pub fn symbol(&self) -> (res: Vec<u8>)
        ensures
            res@ == self@.symbol,
    {
        copy_bytes(&self.symbol)
    }

    /// Get the token URI for a specific token
    pub fn token_uri(&self, token_id: u128) -> (res: Vec<u8>)
        requires
            is_valid(self@, token_id),
        ensures
            res@ == token_uri_of(self@, token_id),
    {
        match self.token_uris.get(&token_id) {
            Some(u) => copy_bytes(u),
            None => copy_bytes(&self.base_uri),
        }
    }

    /// Set the token URI for a specific token
    pub fn set_token_uri(&mut self, token_id: u128, uri: Vec<u8>) -> (res: Result<(), Error>)
        requires
            old(self).wf(),
        ensures
            final(self).wf(),
            (final(self)@, res) == set_token_uri_step(old(self)@, token_id, uri@),
    {
        if !self.is_valid(token_id) {
            return Err(Error::InvalidTokenId);
        }
        let ghost s = self@;
        let ghost u = uri@;
        self.token_uris.insert(token_id, uri);
        proof {
            assert(self@.token_uris =~= s.token_uris.insert(token_id, u));
            assert(self@ == set_token_uri_step(s, token_id, u).0);
        }
        proof {
            lemma_inv_frame(old(self)@, self@);
        }
        Ok(())
    }

    /// Update transfer restrictions
    pub fn set_transfer_restrictions(&mut self, enabled: bool, cooldown: u64, fee_bps: u32) -> (res:
        Result<(), Error>)
        requires
            old(self).wf(),
        ensures
            final(self).wf(),
            res is Ok,
            final(self)@ == (TicketNftState {
                transfers_enabled: enabled,
                transfer_cooldown: cooldown,
                transfer_fee_bps: fee_bps,
                ..old(self)@
            }),
    {
        self.transfers_enabled = enabled;
        self.transfer_cooldown = cooldown;
        self.transfer_fee_bps = fee_bps;
        proof {
            lemma_inv_frame(old(self)@, self@);
        }
        Ok(())
    }

    /// Set organizer address
    pub fn set_organizer(&mut self, organizer: AccountId) -> (res: Result<(), Error>)
        requires
            old(self).wf(),
        ensures
            final(self).wf(),
            res is Ok,
            final(self)@ == (TicketNftState { organizer, ..old(self)@ }),
    {
        self.organizer = organizer;
        proof {
            lemma_inv_frame(old(self)@, self@);
        }
        Ok(())
    }

    /// Get transfer fee bps
    pub fn get_transfer_fee_bps(&self) -> (res: u32)
        ensures
            res == self@.transfer_fee_bps,
    {
        self.transfer_fee_bps
    }

    /// Get organizer address
    pub fn get_organizer(&self) -> (res: AccountId)
        ensures
            res == self@.organizer,
    {
        self.organizer
    }

    /// Add or remove from blocklist
    pub fn set_blocklist(&mut self, address: AccountId, blocked: bool) -> (res: Result<(), Error>)
        requires
            old(self).wf(),
        ensures
            final(self).wf(),
            res is Ok,
            final(self)@ == set_blocklist_step(old(self)@, address, blocked),
    {
        if blocked {
            self.blocklist.insert(address);
        } else {
            self.blocklist.remove(&address);
        }
        proof {
            lemma_inv_frame(old(self)@, self@);
        }
        Ok(())
    }

    /// Set original price for per-token resale cap
    pub fn set_original_price(&mut self, token_id: u128, price: i128) -> (res: Result<(), Error>)
        requires
            old(self).wf(),
        ensures
            final(self).wf(),
            (final(self)@, res) == set_original_price_step(old(self)@, token_id, price),
    {
        if !self.is_valid(token_id) {
            return Err(Error::InvalidTokenId);
        }
        self.original_prices.insert(token_id, price);
        proof {
            lemma_inv_frame(old(self)@, self@);
        }
        Ok(())
    }

    /// Get original price of a token
    pub fn get_original_price(&self, token_id: u128) -> (res: i128)
        ensures
            res == (if self@.original_prices.contains_key(token_id) {
                self@.original_prices[token_id]
            } else {
                0
            }),
    {
        match self.original_prices.get(&token_id) {
            Some(p) => *p,
            None => 0,
        }
    }

    /// Check if an address is blocked
    pub fn is_blocked(&self, address: AccountId) -> (res: bool)
        ensures
            res == self@.blocklist.contains(address),
    {
        self.blocklist.contains(&address)
    }
}

} // verus!
