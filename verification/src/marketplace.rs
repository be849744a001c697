//! Secondary market for event tickets: listings, purchases with royalty
//! payouts, and the administration of price caps and royalty recipients.
//!
//! The contract's storage is held in [`MarketplaceContract`]; every entry point
//! is a method that reads and updates it.  Work that belongs to the ledger host
//! (authorising callers, reading token balances, moving tokens, publishing
//! events) is not done here: a method takes what the host reported as an
//! argument, and returns what the host has to carry out.
use vstd::prelude::*;

use crate::AccountId;

verus! {

/// Basis points that make up one hundred percent.
pub const BASIS_POINTS: u32 = 10000;

/// Number of listings a user may hold, as set at construction.
pub const DEFAULT_MAX_LISTINGS_PER_USER: u32 = 10;

/// Number of royalty recipients a configuration update may name.
pub const DEFAULT_MAX_ROYALTY_RECIPIENTS: u32 = 10;

#[derive(Clone, Copy, Debug, PartialEq, Eq, Structural)]
pub enum MarketplaceError {
    ListingNotFound,
    ListingNotActive,
    CannotPurchaseOwnListing,
    PaymentTokenNotConfigured,
    OnlySellerCanCancel,
    ListingAlreadyInactive,
    PriceMustBePositive,
    InsufficientBalance,
    Unauthorized,
    InvalidRoyaltyPercentage,
    RoyaltyConfigNotFound,
    RoyaltyRecipientsExceeded,
}

impl MarketplaceError {
    /// The number by which the contract reports this error.
    pub fn code(&self) -> (c: u32)
        ensures
            c == self.spec_code(),
    {
        match self {
            MarketplaceError::ListingNotFound => 1,
            MarketplaceError::ListingNotActive => 2,
            MarketplaceError::CannotPurchaseOwnListing => 3,
            MarketplaceError::PaymentTokenNotConfigured => 4,
            MarketplaceError::OnlySellerCanCancel => 5,
            MarketplaceError::ListingAlreadyInactive => 6,
            MarketplaceError::PriceMustBePositive => 7,
            MarketplaceError::InsufficientBalance => 8,
            MarketplaceError::Unauthorized => 9,
            MarketplaceError::InvalidRoyaltyPercentage => 10,
            MarketplaceError::RoyaltyConfigNotFound => 11,
            MarketplaceError::RoyaltyRecipientsExceeded => 12,
        }
    }

    pub open spec fn spec_code(&self) -> u32 {
        match self {
            MarketplaceError::ListingNotFound => 1,
            MarketplaceError::ListingNotActive => 2,
            MarketplaceError::CannotPurchaseOwnListing => 3,
            MarketplaceError::PaymentTokenNotConfigured => 4,
            MarketplaceError::OnlySellerCanCancel => 5,
            MarketplaceError::ListingAlreadyInactive => 6,
            MarketplaceError::PriceMustBePositive => 7,
            MarketplaceError::InsufficientBalance => 8,
            MarketplaceError::Unauthorized => 9,
            MarketplaceError::InvalidRoyaltyPercentage => 10,
            MarketplaceError::RoyaltyConfigNotFound => 11,
            MarketplaceError::RoyaltyRecipientsExceeded => 12,
        }
    }
}

/// A ticket offered for sale.
#[derive(Clone, Copy, Debug, PartialEq, Eq, Structural)]
pub struct Listing {
    pub seller: AccountId,
    pub ticket_contract: AccountId,
    pub token_id: i128,
    pub price: i128,
    pub active: bool,
    pub created_at: u64,
}

/// A completed purchase.
#[derive(Clone, Copy, Debug, PartialEq, Eq, Structural)]
pub struct Sale {
    pub buyer: AccountId,
    pub seller: AccountId,
    pub ticket_contract: AccountId,
    pub token_id: i128,
    pub price: i128,
    pub timestamp: u64,
}

/// Bounds on resale prices; while active, listing prices must be positive.
#[derive(Clone, Copy, Debug, PartialEq, Eq, Structural)]
pub struct PriceCap {
    pub max_price_multiplier: i128,
    pub min_price_multiplier: i128,
    pub active: bool,
}

/// A party that receives a share of every sale, in basis points.
#[derive(Clone, Copy, Debug, PartialEq, Eq, Structural)]
pub struct RoyaltyRecipient {
    pub recipient: AccountId,
    pub percentage: u32,
}

/// The royalty recipients and the sum of their shares.
#[derive(Debug)]
pub struct RoyaltyConfig {
    pub recipients: Vec<RoyaltyRecipient>,
    pub total_percentage: u32,
    pub active: bool,
}

/// Mathematical value of a [`RoyaltyConfig`].
pub struct RoyaltyConfigView {
    pub recipients: Seq<RoyaltyRecipient>,
    pub total_percentage: u32,
    pub active: bool,
}

impl View for RoyaltyConfig {
    type V = RoyaltyConfigView;

    open spec fn view(&self) -> RoyaltyConfigView {
        RoyaltyConfigView {
            recipients: self.recipients@,
            total_percentage: self.total_percentage,
            active: self.active,
        }
    }
}

/// A royalty transfer from the buyer that a purchase requires.
#[derive(Clone, Copy, Debug, PartialEq, Eq, Structural)]
pub struct RoyaltyPayment {
    pub recipient: AccountId,
    pub percentage: u32,
    pub amount: i128,
}

/// What the host has to carry out for a purchase: the royalty transfers in
/// order, then the transfer of `seller_amount` to the seller when it is
/// positive, all in `payment_token`; then the ticket moves from seller to
/// buyer as recorded in `sale`.
#[derive(Debug)]
pub struct Settlement {
    pub payment_token: AccountId,
    pub royalties: Vec<RoyaltyPayment>,
    pub seller_amount: i128,
    pub sale: Sale,
}

/// Mathematical value of a [`Settlement`].
pub struct SettlementView {
    pub payment_token: AccountId,
    pub royalties: Seq<RoyaltyPayment>,
    pub seller_amount: i128,
    pub sale: Sale,
}

impl View for Settlement {
    type V = SettlementView;

    open spec fn view(&self) -> SettlementView {
        SettlementView {
            payment_token: self.payment_token,
            royalties: self.royalties@,
            seller_amount: self.seller_amount,
            sale: self.sale,
        }
    }
}

impl Settlement {
    /// The transfer to the seller, when there is one: the seller's amount
    /// when it is positive.
    pub fn seller_payment(&self) -> (r: Option<i128>)
        ensures
            r == (if self.seller_amount > 0 {
                Some(self.seller_amount)
            } else {
                None::<i128>
            }),
    {
        if self.seller_amount > 0 {
            Some(self.seller_amount)
        } else {
            None
        }
    }
}

/// The contract's storage as mathematical values.
pub struct MarketplaceState {
    pub price_cap: PriceCap,
    pub admin: AccountId,
    pub listings: Seq<Listing>,
    pub sales: Seq<Sale>,
    pub max_listings_per_user: u32,
    pub royalty: Option<RoyaltyConfigView>,
    pub max_royalty_recipients: u32,
}

/// The marketplace contract and its storage.  The fields are the storage
/// entries, public so that a host can load and save them; the methods require
/// and keep [`MarketplaceContract::wf`].
pub struct MarketplaceContract {
    pub price_cap: PriceCap,
    pub admin: AccountId,
    pub listings: Vec<Listing>,
    pub sales: Vec<Sale>,
    pub max_listings_per_user: u32,
    pub royalty_config: Option<RoyaltyConfig>,
    pub max_royalty_recipients: u32,
}

// ---------------------------------------------------------------------------
// Royalty arithmetic
// ---------------------------------------------------------------------------

/// Sum of the shares of `rs`, in basis points.
pub open spec fn total_bps(rs: Seq<RoyaltyRecipient>) -> int
    decreases rs.len(),
{
    if rs.len() == 0 {
        0
    } else {
        total_bps(rs.drop_last()) + rs.last().percentage
    }
}

/// Sum of the amounts of `ps`.
pub open spec fn total_paid(ps: Seq<RoyaltyPayment>) -> int
    decreases ps.len(),
{
    if ps.len() == 0 {
        0
    } else {
        total_paid(ps.drop_last()) + ps.last().amount
    }
}

/// Paying the recipients `rs`, in order, out of a sale at `price`: each is
/// owed `price * percentage / 10000` (truncated), paid when positive and taken
/// from what the seller receives.  Gives the transfers and what is left for the
/// seller, or the error met: a share whose product overflows `i128`, or a
/// remainder that falls below `i128::MIN`.
pub open spec fn settle_royalties(price: i128, rs: Seq<RoyaltyRecipient>) -> Result<
    (Seq<RoyaltyPayment>, i128),
    MarketplaceError,
>
    decreases rs.len(),
{
    if rs.len() == 0 {
        Ok((Seq::empty(), price))
    } else {
        match settle_royalties(price, rs.drop_last()) {
            Err(e) => Err(e),
            Ok((pays, rest)) => {
                let r = rs.last();
                let product = price * r.percentage;
                if product > i128::MAX || product < i128::MIN {
                    Err(MarketplaceError::InvalidRoyaltyPercentage)
                } else if product >= BASIS_POINTS {
                    let amount = product / (BASIS_POINTS as int);
                    if rest - amount < i128::MIN {
                        Err(MarketplaceError::InsufficientBalance)
                    } else {
                        Ok(
                            (
                                pays.push(
                                    RoyaltyPayment {
                                        recipient: r.recipient,
                                        percentage: r.percentage,
                                        amount: amount as i128,
                                    },
                                ),
                                (rest - amount) as i128,
                            ),
                        )
                    }
                } else {
                    Ok((pays, rest))
                }
            },
        }
    }
}

/// Once paying a prefix of the recipients fails, paying any longer prefix
/// fails with the same error.
proof fn lemma_settle_error_persists(price: i128, rs: Seq<RoyaltyRecipient>, i: int, j: int)
    requires
        0 <= i <= j <= rs.len(),
        settle_royalties(price, rs.take(i)) is Err,
    ensures
        settle_royalties(price, rs.take(j)) == settle_royalties(price, rs.take(i)),
    decreases j - i,
{
    if j > i {
        lemma_settle_error_persists(price, rs, i, j - 1);
        assert(rs.take(j).drop_last() =~= rs.take(j - 1));
    }
}

proof fn lemma_total_bps_prefix_monotone(rs: Seq<RoyaltyRecipient>, i: int, j: int)
    requires
        0 <= i <= j <= rs.len(),
    ensures
        0 <= total_bps(rs.take(i)) <= total_bps(rs.take(j)),
    decreases j,
{
    if j > i {
        lemma_total_bps_prefix_monotone(rs, i, j - 1);
        assert(rs.take(j).drop_last() =~= rs.take(j - 1));
    } else if j > 0 {
        lemma_total_bps_prefix_monotone(rs, 0, j - 1);
        assert(rs.take(j).drop_last() =~= rs.take(j - 1));
    } else {
        assert(rs.take(0).len() == 0);
    }
}

proof fn lemma_total_bps_nonneg(rs: Seq<RoyaltyRecipient>)
    ensures
        total_bps(rs) >= 0,
{
    lemma_total_bps_prefix_monotone(rs, 0, rs.len() as int);
    assert(rs.take(rs.len() as int) =~= rs);
}

proof fn lemma_total_bps_update(rs: Seq<RoyaltyRecipient>, i: int, x: RoyaltyRecipient)
    requires
        0 <= i < rs.len(),
    ensures
        total_bps(rs.update(i, x)) == total_bps(rs) - rs[i].percentage + x.percentage,
    decreases rs.len(),
{
    if i == rs.len() - 1 {
        assert(rs.update(i, x).drop_last() =~= rs.drop_last());
    } else {
        lemma_total_bps_update(rs.drop_last(), i, x);
        assert(rs.update(i, x).drop_last() =~= rs.drop_last().update(i, x));
    }
}

/// Computes the royalty transfers of a sale at `price`.
fn compute_royalties(price: i128, recipients: &Vec<RoyaltyRecipient>) -> (res: Result<
    (Vec<RoyaltyPayment>, i128),
    MarketplaceError,
>)
    ensures
        match res {
            Ok((pays, rest)) => settle_royalties(price, recipients@) == Ok::<
                (Seq<RoyaltyPayment>, i128),
                MarketplaceError,
            >((pays@, rest)),
            Err(e) => settle_royalties(price, recipients@) == Err::<
                (Seq<RoyaltyPayment>, i128),
                MarketplaceError,
            >(e),
        },
{
    let mut pays: Vec<RoyaltyPayment> = Vec::new();
    let mut seller_amount: i128 = price;
    let n = recipients.len();
    let mut i: usize = 0;
    assert(recipients@.take(0) =~= Seq::<RoyaltyRecipient>::empty());
    while i < n
        invariant
            n == recipients@.len(),
            i <= n,
            settle_royalties(price, recipients@.take(i as int)) == Ok::<
                (Seq<RoyaltyPayment>, i128),
                MarketplaceError,
            >((pays@, seller_amount)),
        decreases n - i,
    {
        let r = recipients[i];
        proof {
            assert(recipients@.take(i + 1).drop_last() =~= recipients@.take(i as int));
            assert(recipients@.take(i + 1).last() == r);
        }
        let product = match price.checked_mul(r.percentage as i128) {
            Some(p) => p,
            None => {
                proof {
                    lemma_settle_error_persists(price, recipients@, i + 1, n as int);
                    assert(recipients@.take(n as int) =~= recipients@);
                }
                return Err(MarketplaceError::InvalidRoyaltyPercentage);
            },
        };
        if product >= 10000 {
            let amount = product / 10000;
            match seller_amount.checked_sub(amount) {
                Some(rest) => {
                    pays.push(
                        RoyaltyPayment {
                            recipient: r.recipient,
                            percentage: r.percentage,
                            amount: amount,
                        },
                    );
                    seller_amount = rest;
                },
                None => {
                    proof {
                        lemma_settle_error_persists(price, recipients@, i + 1, n as int);
                        assert(recipients@.take(n as int) =~= recipients@);
                    }
                    return Err(MarketplaceError::InsufficientBalance);
                },
            }
        }
        i = i + 1;
    }
    proof {
        assert(recipients@.take(n as int) =~= recipients@);
    }
    Ok((pays, seller_amount))
}

/// Sums the shares of `recipients`, failing when the sum leaves `u32`.
fn sum_percentages(recipients: &Vec<RoyaltyRecipient>) -> (res: Option<u32>)
    ensures
        match res {
            Some(t) => t == total_bps(recipients@),
            None => total_bps(recipients@) > u32::MAX,
        },
{
    let mut total: u32 = 0;
    let n = recipients.len();
    let mut i: usize = 0;
    assert(recipients@.take(0) =~= Seq::<RoyaltyRecipient>::empty());
    while i < n
        invariant
            n == recipients@.len(),
            i <= n,
            total == total_bps(recipients@.take(i as int)),
        decreases n - i,
    {
        proof {
            assert(recipients@.take(i + 1).drop_last() =~= recipients@.take(i as int));
        }
        match total.checked_add(recipients[i].percentage) {
            Some(t) => {
                total = t;
            },
            None => {
                proof {
                    lemma_total_bps_prefix_monotone(recipients@, i + 1, n as int);
                    assert(recipients@.take(n as int) =~= recipients@);
                }
                return None;
            },
        }
        i = i + 1;
    }
    proof {
        assert(recipients@.take(n as int) =~= recipients@);
    }
    Some(total)
}

// ---------------------------------------------------------------------------
// The contract as a state machine on MarketplaceState
// ---------------------------------------------------------------------------

/// The storage that construction writes.
pub open spec fn constructed(
    admin: AccountId,
    max_price_multiplier: i128,
    min_price_multiplier: i128,
) -> MarketplaceState {
    MarketplaceState {
        price_cap: PriceCap { max_price_multiplier, min_price_multiplier, active: true },
        admin,
        listings: Seq::empty(),
        sales: Seq::empty(),
        max_listings_per_user: DEFAULT_MAX_LISTINGS_PER_USER,
        royalty: None,
        max_royalty_recipients: DEFAULT_MAX_ROYALTY_RECIPIENTS,
    }
}

/// What every reachable storage satisfies: listing and sale numbers fit in
/// `u32`, and a royalty configuration records the sum of its shares, which is
/// at most one hundred percent.
pub open spec fn state_inv(s: MarketplaceState) -> bool {
    &&& s.listings.len() <= u32::MAX
    &&& s.sales.len() <= u32::MAX
    &&& match s.royalty {
        Some(c) => c.total_percentage == total_bps(c.recipients) && c.total_percentage
            <= BASIS_POINTS,
        None => true,
    }
}

/// Listing a ticket: it takes the next listing number and is active.
pub open spec fn create_listing_step(
    s: MarketplaceState,
    seller: AccountId,
    ticket_contract: AccountId,
    token_id: i128,
    price: i128,
    now: u64,
) -> (MarketplaceState, u32) {
    let listing = Listing { seller, ticket_contract, token_id, price, active: true, created_at: now };
    (MarketplaceState { listings: s.listings.push(listing), ..s }, s.listings.len() as u32)
}

/// Withdrawing a listing.
pub open spec fn cancel_listing_step(s: MarketplaceState, seller: AccountId, listing_id: u32) -> (
    MarketplaceState,
    Result<(), MarketplaceError>,
) {
    if listing_id >= s.listings.len() {
        (s, Err(MarketplaceError::ListingNotFound))
    } else {
        let l = s.listings[listing_id as int];
        if l.seller != seller {
            (s, Err(MarketplaceError::OnlySellerCanCancel))
        } else if !l.active {
            (s, Err(MarketplaceError::ListingAlreadyInactive))
        } else {
            (
                MarketplaceState {
                    listings: s.listings.update(listing_id as int, Listing { active: false, ..l }),
                    ..s
                },
                Ok(()),
            )
        }
    }
}

/// How the price of a sale is split: royalties when a configuration exists
/// and is active, otherwise everything to the seller.
pub open spec fn purchase_split(s: MarketplaceState, price: i128) -> Result<
    (Seq<RoyaltyPayment>, i128),
    MarketplaceError,
> {
    match s.royalty {
        Some(c) => if c.active {
            settle_royalties(price, c.recipients)
        } else {
            Ok((Seq::empty(), price))
        },
        None => Ok((Seq::empty(), price)),
    }
}

/// Buying a listed ticket.
pub open spec fn purchase_step(s: MarketplaceState, buyer: AccountId, listing_id: u32, now: u64) -> (
    MarketplaceState,
    Result<SettlementView, MarketplaceError>,
) {
    if listing_id >= s.listings.len() {
        (s, Err(MarketplaceError::ListingNotFound))
    } else {
        let l = s.listings[listing_id as int];
        if !l.active {
            (s, Err(MarketplaceError::ListingNotActive))
        } else if l.seller == buyer {
            (s, Err(MarketplaceError::CannotPurchaseOwnListing))
        } else {
            match purchase_split(s, l.price) {
                Err(e) => (s, Err(e)),
                Ok((royalties, seller_amount)) => {
                    let sale = Sale {
                        buyer,
                        seller: l.seller,
                        ticket_contract: l.ticket_contract,
                        token_id: l.token_id,
                        price: l.price,
                        timestamp: now,
                    };
                    (
                        MarketplaceState {
                            listings: s.listings.update(
                                listing_id as int,
                                Listing { active: false, ..l },
                            ),
                            sales: s.sales.push(sale),
                            ..s
                        },
                        Ok(SettlementView { payment_token: s.admin, royalties, seller_amount, sale }),
                    )
                },
            }
        }
    }
}

/// Replacing the price cap (administrator only).
pub open spec fn update_price_cap_step(
    s: MarketplaceState,
    admin: AccountId,
    max_multiplier: i128,
    min_multiplier: i128,
    active: bool,
) -> (MarketplaceState, Result<(), MarketplaceError>) {
    if admin != s.admin {
        (s, Err(MarketplaceError::Unauthorized))
    } else {
        (
            MarketplaceState {
                price_cap: PriceCap {
                    max_price_multiplier: max_multiplier,
                    min_price_multiplier: min_multiplier,
                    active,
                },
                ..s
            },
            Ok(()),
        )
    }
}

/// Installing a royalty configuration: allowed while the shares sum to at most
/// one hundred percent; the configuration is active.
pub open spec fn set_royalties(s: MarketplaceState, recipients: Seq<RoyaltyRecipient>) -> (
    MarketplaceState,
    Result<(), MarketplaceError>,
) {
    if total_bps(recipients) > BASIS_POINTS {
        (s, Err(MarketplaceError::InvalidRoyaltyPercentage))
    } else {
        (
            MarketplaceState {
                royalty: Some(
                    RoyaltyConfigView {
                        recipients,
                        total_percentage: total_bps(recipients) as u32,
                        active: true,
                    },
                ),
                ..s
            },
            Ok(()),
        )
    }
}

/// The first royalty configuration (administrator only).
pub open spec fn initialize_royalty_step(
    s: MarketplaceState,
    admin: AccountId,
    recipients: Seq<RoyaltyRecipient>,
) -> (MarketplaceState, Result<(), MarketplaceError>) {
    if admin != s.admin {
        (s, Err(MarketplaceError::Unauthorized))
    } else {
        set_royalties(s, recipients)
    }
}

/// A replacement royalty configuration (administrator only), naming at most
/// `max_royalty_recipients` recipients.
pub open spec fn update_royalty_step(
    s: MarketplaceState,
    admin: AccountId,
    recipients: Seq<RoyaltyRecipient>,
) -> (MarketplaceState, Result<(), MarketplaceError>) {
    if admin != s.admin {
        (s, Err(MarketplaceError::Unauthorized))
    } else if recipients.len() > s.max_royalty_recipients {
        (s, Err(MarketplaceError::RoyaltyRecipientsExceeded))
    } else {
        set_royalties(s, recipients)
    }
}

/// The checks shared by the edits of one royalty recipient.
pub open spec fn royalty_edit_error(s: MarketplaceState, admin: AccountId, index: u32) -> Option<
    MarketplaceError,
> {
    if admin != s.admin {
        Some(MarketplaceError::Unauthorized)
    } else {
        match s.royalty {
            None => Some(MarketplaceError::RoyaltyConfigNotFound),
            Some(c) => if index >= c.recipients.len() {
                Some(MarketplaceError::RoyaltyConfigNotFound)
            } else {
                None
            },
        }
    }
}

/// Paying another account in the place of recipient `index`.
pub open spec fn update_royalty_recipient_step(
    s: MarketplaceState,
    admin: AccountId,
    index: u32,
    new_recipient: AccountId,
) -> (MarketplaceState, Result<(), MarketplaceError>) {
    match royalty_edit_error(s, admin, index) {
        Some(e) => (s, Err(e)),
        None => {
            let c = s.royalty.unwrap();
            let old = c.recipients[index as int];
            (
                MarketplaceState {
                    royalty: Some(
                        RoyaltyConfigView {
                            recipients: c.recipients.update(
                                index as int,
                                RoyaltyRecipient { recipient: new_recipient, percentage: old.percentage },
                            ),
                            ..c
                        },
                    ),
                    ..s
                },
                Ok(()),
            )
        },
    }
}

/// Changing the share of recipient `index`: the recorded total is adjusted
/// and must stay at most one hundred percent.
pub open spec fn update_royalty_percentage_step(
    s: MarketplaceState,
    admin: AccountId,
    index: u32,
    new_percentage: u32,
) -> (MarketplaceState, Result<(), MarketplaceError>) {
    match royalty_edit_error(s, admin, index) {
        Some(e) => (s, Err(e)),
        None => {
            let c = s.royalty.unwrap();
            let old = c.recipients[index as int];
            let new_total = c.total_percentage - old.percentage + new_percentage;
            if c.total_percentage < old.percentage || new_total > BASIS_POINTS {
                (s, Err(MarketplaceError::InvalidRoyaltyPercentage))
            } else {
                (
                    MarketplaceState {
                        royalty: Some(
                            RoyaltyConfigView {
                                recipients: c.recipients.update(
                                    index as int,
                                    RoyaltyRecipient {
                                        recipient: old.recipient,
                                        percentage: new_percentage,
                                    },
                                ),
                                total_percentage: new_total as u32,
                                active: c.active,
                            },
                        ),
                        ..s
                    },
                    Ok(()),
                )
            }
        },
    }
}

/// Switching royalties on or off.
pub open spec fn toggle_royalty_step(s: MarketplaceState, admin: AccountId, active: bool) -> (
    MarketplaceState,
    Result<(), MarketplaceError>,
) {
    if admin != s.admin {
        (s, Err(MarketplaceError::Unauthorized))
    } else {
        match s.royalty {
            None => (s, Err(MarketplaceError::RoyaltyConfigNotFound)),
            Some(c) => (
                MarketplaceState { royalty: Some(RoyaltyConfigView { active, ..c }), ..s },
                Ok(()),
            ),
        }
    }
}

/// An entry point that changes the storage, with its arguments.
pub enum MarketplaceOp {
    CreateListing {
        seller: AccountId,
        ticket_contract: AccountId,
        token_id: i128,
        price: i128,
        now: u64,
    },
    CancelListing { seller: AccountId, listing_id: u32 },
    Purchase { buyer: AccountId, listing_id: u32, now: u64 },
    UpdatePriceCap { admin: AccountId, max_multiplier: i128, min_multiplier: i128, active: bool },
    InitializeRoyalty { admin: AccountId, recipients: Seq<RoyaltyRecipient> },
    UpdateRoyalty { admin: AccountId, recipients: Seq<RoyaltyRecipient> },
    UpdateRoyaltyRecipient { admin: AccountId, index: u32, new_recipient: AccountId },
    UpdateRoyaltyPercentage { admin: AccountId, index: u32, new_percentage: u32 },
    ToggleRoyalty { admin: AccountId, active: bool },
}

/// The storage after operation `op`, whether it succeeds or fails.
pub open spec fn apply_op(s: MarketplaceState, op: MarketplaceOp) -> MarketplaceState {
    match op {
        MarketplaceOp::CreateListing { seller, ticket_contract, token_id, price, now } =>
            create_listing_step(s, seller, ticket_contract, token_id, price, now).0,
        MarketplaceOp::CancelListing { seller, listing_id } => cancel_listing_step(
            s,
            seller,
            listing_id,
        ).0,
        MarketplaceOp::Purchase { buyer, listing_id, now } => purchase_step(
            s,
            buyer,
            listing_id,
            now,
        ).0,
        MarketplaceOp::UpdatePriceCap { admin, max_multiplier, min_multiplier, active } =>
            update_price_cap_step(s, admin, max_multiplier, min_multiplier, active).0,
        MarketplaceOp::InitializeRoyalty { admin, recipients } => initialize_royalty_step(
            s,
            admin,
            recipients,
        ).0,
        MarketplaceOp::UpdateRoyalty { admin, recipients } => update_royalty_step(
            s,
            admin,
            recipients,
        ).0,
        MarketplaceOp::UpdateRoyaltyRecipient { admin, index, new_recipient } =>
            update_royalty_recipient_step(s, admin, index, new_recipient).0,
        MarketplaceOp::UpdateRoyaltyPercentage { admin, index, new_percentage } =>
            update_royalty_percentage_step(s, admin, index, new_percentage).0,
        MarketplaceOp::ToggleRoyalty { admin, active } => toggle_royalty_step(s, admin, active).0,
    }
}

/// The storage after the operations `ops`, in order.
pub open spec fn run_ops(s: MarketplaceState, ops: Seq<MarketplaceOp>) -> MarketplaceState
    decreases ops.len(),
{
    if ops.len() == 0 {
        s
    } else {
        apply_op(run_ops(s, ops.drop_last()), ops.last())
    }
}

pub open spec fn listing_is_active() -> spec_fn(Listing) -> bool {
    |l: Listing| l.active
}

pub open spec fn listing_matches_seller(seller: AccountId, active_only: bool) -> spec_fn(
    Listing,
) -> bool {
    |l: Listing| l.seller == seller && (!active_only || l.active)
}

pub open spec fn sale_involves(user: AccountId) -> spec_fn(Sale) -> bool {
    |s: Sale| s.buyer == user || s.seller == user
}

/// The active listings among numbers `start` up to (not including)
/// `start + limit`, in order.
pub open spec fn active_listings_in(s: MarketplaceState, start: u32, limit: u32) -> Seq<Listing> {
    let end = if start + limit < s.listings.len() {
        start + limit
    } else {
        s.listings.len() as int
    };
    if start < end {
        s.listings.subrange(start as int, end).filter(listing_is_active())
    } else {
        Seq::empty()
    }
}

impl MarketplaceContract {
    pub closed spec fn spec_royalty(&self) -> Option<RoyaltyConfigView> {
        match self.royalty_config {
            Some(c) => Some(c@),
            None => None,
        }
    }

    /// Whether the storage is one that the contract can reach.
    pub open spec fn wf(&self) -> bool {
        state_inv(self@)
    }

    /// Creates the marketplace: `admin` administers it (and stands for the
    /// payment token), prices are capped as given and the cap is active.
    pub fn new(admin: AccountId, max_price_multiplier: i128, min_price_multiplier: i128) -> (s:
        Self)
        ensures
            s@ == constructed(admin, max_price_multiplier, min_price_multiplier),
            s.wf(),
    {
        MarketplaceContract {
            price_cap: PriceCap { max_price_multiplier, min_price_multiplier, active: true },
            admin,
            listings: Vec::new(),
            sales: Vec::new(),
            max_listings_per_user: DEFAULT_MAX_LISTINGS_PER_USER,
            royalty_config: None,
            max_royalty_recipients: DEFAULT_MAX_ROYALTY_RECIPIENTS,
        }
    }

    /// Lists ticket `token_id` of `ticket_contract` for sale at `price` and
    /// returns the listing's number.  `seller_ticket_balance` is the seller's
    /// balance on `ticket_contract`, which must be positive, and while the
    /// price cap is active the price must be positive.
    pub fn create_listing(
        &mut self,
        seller: AccountId,
        ticket_contract: AccountId,
        token_id: i128,
        price: i128,
        seller_ticket_balance: i128,
        now: u64,
    ) -> (id: u32)
        requires
            old(self).wf(),
            seller_ticket_balance > 0,
            !(old(self)@.price_cap.active && price <= 0),
            old(self)@.listings.len() < u32::MAX,
        ensures
            final(self).wf(),
            (final(self)@, id) == create_listing_step(
                old(self)@,
                seller,
                ticket_contract,
                token_id,
                price,
                now,
            ),
    {
        let id = self.listings.len() as u32;
        self.listings.push(
            Listing { seller, ticket_contract, token_id, price, active: true, created_at: now },
        );
        id
    }

    /// What buying listing `listing_id` for `buyer` at time `now` settles,
    /// without recording anything: the checks and the split of
    /// `purchase_ticket`, in the same order.
    pub fn quote_purchase(&self, buyer: AccountId, listing_id: u32, now: u64) -> (res: Result<
        Settlement,
        MarketplaceError,
    >)
        requires
            self.wf(),
        ensures
            match res {
                Ok(st) => purchase_step(self@, buyer, listing_id, now).1 == Ok::<
                    SettlementView,
                    MarketplaceError,
                >(st@),
                Err(e) => purchase_step(self@, buyer, listing_id, now).1 == Err::<
                    SettlementView,
                    MarketplaceError,
                >(e),
            },
    {
        if listing_id as usize >= self.listings.len() {
            return Err(MarketplaceError::ListingNotFound);
        }
        let listing = self.listings[listing_id as usize];
        if !listing.active {
            return Err(MarketplaceError::ListingNotActive);
        }
        if listing.seller == buyer {
            return Err(MarketplaceError::CannotPurchaseOwnListing);
        }
        let (royalties, seller_amount) = match &self.royalty_config {
            Some(config) => {
                if config.active {
                    match compute_royalties(listing.price, &config.recipients) {
                        Ok(split) => split,
                        Err(e) => {
                            return Err(e);
                        },
                    }
                } else {
                    (Vec::new(), listing.price)
                }
            },
            None => (Vec::new(), listing.price),
        };
        let sale = Sale {
            buyer,
            seller: listing.seller,
            ticket_contract: listing.ticket_contract,
            token_id: listing.token_id,
            price: listing.price,
            timestamp: now,
        };
        Ok(Settlement { payment_token: self.admin, royalties, seller_amount, sale })
    }

    /// Buys listing `listing_id` for `buyer` at time `now`.  On success the
    /// listing is inactive, the sale is recorded, and the returned settlement
    /// says which transfers the host performs.  The sale count must leave
    /// room for one more sale only where the purchase goes through.
    pub fn purchase_ticket(&mut self, buyer: AccountId, listing_id: u32, now: u64) -> (res: Result<
        Settlement,
        MarketplaceError,
    >)
        requires
            old(self).wf(),
            purchase_step(old(self)@, buyer, listing_id, now).1 is Ok ==> old(self)@.sales.len()
                < u32::MAX,
        ensures
            final(self).wf(),
            final(self)@ == purchase_step(old(self)@, buyer, listing_id, now).0,
            match res {
                Ok(st) => purchase_step(old(self)@, buyer, listing_id, now).1 == Ok::<
                    SettlementView,
                    MarketplaceError,
                >(st@),
                Err(e) => purchase_step(old(self)@, buyer, listing_id, now).1 == Err::<
                    SettlementView,
                    MarketplaceError,
                >(e),
            },
    {
        let settlement = match self.quote_purchase(buyer, listing_id, now) {
            Ok(st) => st,
            Err(e) => {
                return Err(e);
            },
        };
        let listing = self.listings[listing_id as usize];
        self.listings.set(listing_id as usize, Listing { active: false, ..listing });
        self.sales.push(settlement.sale);
        Ok(settlement)
    }

    /// Withdraws listing `listing_id`; only its seller may, and only while it
    /// is active.
    pub fn cancel_listing(&mut self, seller: AccountId, listing_id: u32) -> (res: Result<
        (),
        MarketplaceError,
    >)
        requires
            old(self).wf(),
        ensures
            final(self).wf(),
            (final(self)@, res) == cancel_listing_step(old(self)@, seller, listing_id),
    {
        if listing_id as usize >= self.listings.len() {
            return Err(MarketplaceError::ListingNotFound);
        }
        let listing = self.listings[listing_id as usize];
        if listing.seller != seller {
            return Err(MarketplaceError::OnlySellerCanCancel);
        }
        if !listing.active {
            return Err(MarketplaceError::ListingAlreadyInactive);
        }
        self.listings.set(listing_id as usize, Listing { active: false, ..listing });
        Ok(())
    }

    /// The listing with number `listing_id`, if there is one.
    pub fn get_listing(&self, listing_id: u32) -> (res: Option<Listing>)
        ensures
            res == (if listing_id < self@.listings.len() {
                Some(self@.listings[listing_id as int])
            } else {
                None::<Listing>
            }),
    {
        if (listing_id as usize) < self.listings.len() {
            Some(self.listings[listing_id as usize])
        } else {
            None
        }
    }

    /// The active listings among numbers `start` up to `start + limit`.
    pub fn get_active_listings(&self, start: u32, limit: u32) -> (res: Vec<Listing>)
        requires
            start + limit <= u32::MAX,
        ensures
            res@ == active_listings_in(self@, start, limit),
    {
        let total = self.listings.len();
        let sum = (start + limit) as usize;
        let end = if sum < total {
            sum
        } else {
            total
        };
        let mut out: Vec<Listing> = Vec::new();
        if start as usize >= end {
            return out;
        }
        let mut i: usize = start as usize;
        let ghost s = start as int;
        assert(self@.listings.subrange(s, s) =~= Seq::<Listing>::empty());
        while i < end
            invariant
                end <= self@.listings.len(),
                s == start as int,
                s <= i <= end,
                out@ == self@.listings.subrange(s, i as int).filter(listing_is_active()),
                self@.listings == self.listings@,
            decreases end - i,
        {
            let l = self.listings[i];
            proof {
                assert(self@.listings.subrange(s, i + 1) =~= self@.listings.subrange(
                    s,
                    i as int,
                ).push(l));
                self@.listings.subrange(s, i as int).lemma_filter_push(l, listing_is_active());
            }
            if l.active {
                out.push(l);
            }
            i = i + 1;
        }
        out
    }

    /// The listings of `seller`, all of them or only the active ones.
    pub fn get_seller_listings(&self, seller: AccountId, active_only: bool) -> (res: Vec<Listing>)
        ensures
            res@ == self@.listings.filter(listing_matches_seller(seller, active_only)),
    {
        let n = self.listings.len();
        let mut out: Vec<Listing> = Vec::new();
        let mut i: usize = 0;
        assert(self@.listings.take(0) =~= Seq::<Listing>::empty());
        while i < n
            invariant
                n == self@.listings.len(),
                i <= n,
                self@.listings == self.listings@,
                out@ == self@.listings.take(i as int).filter(
                    listing_matches_seller(seller, active_only),
                ),
            decreases n - i,
        {
            let l = self.listings[i];
            proof {
                assert(self@.listings.take(i + 1) =~= self@.listings.take(i as int).push(l));
                self@.listings.take(i as int).lemma_filter_push(
                    l,
                    listing_matches_seller(seller, active_only),
                );
            }
            if l.seller == seller && (!active_only || l.active) {
                out.push(l);
            }
            i = i + 1;
        }
        assert(self@.listings.take(n as int) =~= self@.listings);
        out
    }

    /// The sales in which `user` bought or sold.
    pub fn get_user_transactions(&self, user: AccountId) -> (res: Vec<Sale>)
        ensures
            res@ == self@.sales.filter(sale_involves(user)),
    {
        let n = self.sales.len();
        let mut out: Vec<Sale> = Vec::new();
        let mut i: usize = 0;
        assert(self@.sales.take(0) =~= Seq::<Sale>::empty());
        while i < n
            invariant
                n == self@.sales.len(),
                i <= n,
                self@.sales == self.sales@,
                out@ == self@.sales.take(i as int).filter(sale_involves(user)),
            decreases n - i,
        {
            let sale = self.sales[i];
            proof {
                assert(self@.sales.take(i + 1) =~= self@.sales.take(i as int).push(sale));
                self@.sales.take(i as int).lemma_filter_push(sale, sale_involves(user));
            }
            if sale.buyer == user || sale.seller == user {
                out.push(sale);
            }
            i = i + 1;
        }
        assert(self@.sales.take(n as int) =~= self@.sales);
        out
    }

    /// Replaces the price cap (administrator only).
    pub fn update_price_cap(
        &mut self,
        admin: AccountId,
        max_multiplier: i128,
        min_multiplier: i128,
        active: bool,
    ) -> (res: Result<(), MarketplaceError>)
        requires
            old(self).wf(),
        ensures
            final(self).wf(),
            (final(self)@, res) == update_price_cap_step(
                old(self)@,
                admin,
                max_multiplier,
                min_multiplier,
                active,
            ),
    {
        if admin != self.admin {
            return Err(MarketplaceError::Unauthorized);
        }
        self.price_cap = PriceCap {
            max_price_multiplier: max_multiplier,
            min_price_multiplier: min_multiplier,
            active,
        };
        Ok(())
    }

    fn install_royalties(&mut self, recipients: Vec<RoyaltyRecipient>) -> (res: Result<
        (),
        MarketplaceError,
    >)
        requires
            old(self).wf(),
        ensures
            final(self).wf(),
            (final(self)@, res) == set_royalties(old(self)@, recipients@),
    {
        let total = match sum_percentages(&recipients) {
            Some(t) => t,
            None => {
                return Err(MarketplaceError::InvalidRoyaltyPercentage);
            },
        };
        if total > BASIS_POINTS {
            return Err(MarketplaceError::InvalidRoyaltyPercentage);
        }
        self.royalty_config = Some(
            RoyaltyConfig { recipients, total_percentage: total, active: true },
        );
        Ok(())
    }

    /// Installs the royalty recipients (administrator only); their shares may
    /// sum to at most one hundred percent.
    pub fn initialize_royalty_config(
        &mut self,
        admin: AccountId,
        recipients: Vec<RoyaltyRecipient>,
    ) -> (res: Result<(), MarketplaceError>)
        requires
            old(self).wf(),
        ensures
            final(self).wf(),
            (final(self)@, res) == initialize_royalty_step(old(self)@, admin, recipients@),
    {
        if admin != self.admin {
            return Err(MarketplaceError::Unauthorized);
        }
        self.install_royalties(recipients)
    }

    /// Replaces the royalty recipients (administrator only), naming at most
    /// the configured number of recipients.
    pub fn update_royalty_config(&mut self, admin: AccountId, recipients: Vec<RoyaltyRecipient>) -> (res:
        Result<(), MarketplaceError>)
        requires
            old(self).wf(),
        ensures
            final(self).wf(),
            (final(self)@, res) == update_royalty_step(old(self)@, admin, recipients@),
    {
        if admin != self.admin {
            return Err(MarketplaceError::Unauthorized);
        }
        if recipients.len() > self.max_royalty_recipients as usize {
            return Err(MarketplaceError::RoyaltyRecipientsExceeded);
        }
        self.install_royalties(recipients)
    }

    /// Pays `new_recipient` in the place of recipient `index` (administrator
    /// only).
    pub fn update_royalty_recipient(&mut self, admin: AccountId, index: u32, new_recipient: AccountId) -> (res:
        Result<(), MarketplaceError>)
        requires
            old(self).wf(),
        ensures
            final(self).wf(),
            (final(self)@, res) == update_royalty_recipient_step(
                old(self)@,
                admin,
                index,
                new_recipient,
            ),
    {
        if admin != self.admin {
            return Err(MarketplaceError::Unauthorized);
        }
        match &mut self.royalty_config {
            None => Err(MarketplaceError::RoyaltyConfigNotFound),
            Some(config) => {
                if index as usize >= config.recipients.len() {
                    return Err(MarketplaceError::RoyaltyConfigNotFound);
                }
                let old_entry = config.recipients[index as usize];
                proof {
                    lemma_total_bps_update(
                        config.recipients@,
                        index as int,
                        RoyaltyRecipient { recipient: new_recipient, percentage: old_entry.percentage },
                    );
                }
                config.recipients.set(
                    index as usize,
                    RoyaltyRecipient { recipient: new_recipient, percentage: old_entry.percentage },
                );
                Ok(())
            },
        }
    }

    /// Sets the share of recipient `index` (administrator only); the total
    /// must stay at most one hundred percent.
    pub fn update_royalty_percentage(&mut self, admin: AccountId, index: u32, new_percentage: u32) -> (res:
        Result<(), MarketplaceError>)
        requires
            old(self).wf(),
        ensures
            final(self).wf(),
            (final(self)@, res) == update_royalty_percentage_step(
                old(self)@,
                admin,
                index,
                new_percentage,
            ),
    {
        if admin != self.admin {
            return Err(MarketplaceError::Unauthorized);
        }
        match &mut self.royalty_config {
            None => Err(MarketplaceError::RoyaltyConfigNotFound),
            Some(config) => {
                if index as usize >= config.recipients.len() {
                    return Err(MarketplaceError::RoyaltyConfigNotFound);
                }
                let old_entry = config.recipients[index as usize];
                let without = match config.total_percentage.checked_sub(old_entry.percentage) {
                    Some(t) => t,
                    None => {
                        return Err(MarketplaceError::InvalidRoyaltyPercentage);
                    },
                };
                let new_total = match without.checked_add(new_percentage) {
                    Some(t) => t,
                    None => {
                        return Err(MarketplaceError::InvalidRoyaltyPercentage);
                    },
                };
                if new_total > BASIS_POINTS {
                    return Err(MarketplaceError::InvalidRoyaltyPercentage);
                }
                proof {
                    lemma_total_bps_update(
                        config.recipients@,
                        index as int,
                        RoyaltyRecipient { recipient: old_entry.recipient, percentage: new_percentage },
                    );
                }
                config.recipients.set(
                    index as usize,
                    RoyaltyRecipient { recipient: old_entry.recipient, percentage: new_percentage },
                );
                config.total_percentage = new_total;
                Ok(())
            },
        }
    }

    /// Switches royalty payouts on or off (administrator only).
    pub fn toggle_royalty_config(&mut self, admin: AccountId, active: bool) -> (res: Result<
        (),
        MarketplaceError,
    >)
        requires
            old(self).wf(),
        ensures
            final(self).wf(),
            (final(self)@, res) == toggle_royalty_step(old(self)@, admin, active),
    {
        if admin != self.admin {
            return Err(MarketplaceError::Unauthorized);
        }
        match &mut self.royalty_config {
            None => Err(MarketplaceError::RoyaltyConfigNotFound),
            Some(config) => {
                config.active = active;
                Ok(())
            },
        }
    }

    /// The royalty configuration, if one was installed.
    pub fn get_royalty_config(&self) -> (res: Option<&RoyaltyConfig>)
        ensures
            match res {
                Some(c) => self@.royalty == Some(c@),
                None => self@.royalty is None,
            },
    {
        self.royalty_config.as_ref()
    }

    /// The administrator, which also stands for the payment token.
    pub fn admin(&self) -> (a: AccountId)
        ensures
            a == self@.admin,
    {
        self.admin
    }

    /// The current price cap.
    pub fn price_cap(&self) -> (c: PriceCap)
        ensures
            c == self@.price_cap,
    {
        self.price_cap
    }

    /// The number of listings ever made.
    pub fn total_listings(&self) -> (n: u32)
        requires
            self.wf(),
        ensures
            n == self@.listings.len(),
    {
        self.listings.len() as u32
    }

    /// The number of sales ever made.
    pub fn total_sales(&self) -> (n: u32)
        requires
            self.wf(),
        ensures
            n == self@.sales.len(),
    {
        self.sales.len() as u32
    }
}

// ---------------------------------------------------------------------------
// Laws
// ---------------------------------------------------------------------------

/// Every transfer that a settlement asks for is positive, and the transfers
/// together with what is left for the seller make up the price exactly.
pub proof fn lemma_settlement_conserves_price(price: i128, rs: Seq<RoyaltyRecipient>)
    ensures
        settle_royalties(price, rs) matches Ok((pays, rest)) ==> {
            &&& total_paid(pays) + rest == price
            &&& forall|k: int| 0 <= k < pays.len() ==> #[trigger] pays[k].amount > 0
        },
    decreases rs.len(),
{
    if rs.len() == 0 {
        return;
    }
    lemma_settlement_conserves_price(price, rs.drop_last());
    if let Ok((pays, rest)) = settle_royalties(price, rs) {
        let (pays0, rest0) = settle_royalties(price, rs.drop_last())->Ok_0;
        let product = price * rs.last().percentage;
        if product >= BASIS_POINTS {
            assert(product / 10000 > 0) by (nonlinear_arith)
                requires
                    product >= 10000,
            ;
            assert(pays.drop_last() =~= pays0);
            assert forall|k: int| 0 <= k < pays.len() implies #[trigger] pays[k].amount > 0 by {
                if k < pays.len() - 1 {
                    assert(pays[k] == pays0[k]);
                }
            }
        }
    }
}

/// With a non-negative price and shares summing to at most one hundred
/// percent, royalties never take more than the price: the seller is left a
/// non-negative amount, no payment total goes past
/// `price * total_bps(rs) / 10000`, and the only possible failure is a share
/// whose product overflows.
pub proof fn lemma_royalties_within_price(price: i128, rs: Seq<RoyaltyRecipient>)
    requires
        price >= 0,
        total_bps(rs) <= BASIS_POINTS,
    ensures
        settle_royalties(price, rs) matches Ok((pays, rest)) ==> {
            &&& total_paid(pays) * 10000 <= price * total_bps(rs)
            &&& 0 <= rest <= price
        },
        settle_royalties(price, rs) != Err::<(Seq<RoyaltyPayment>, i128), MarketplaceError>(
            MarketplaceError::InsufficientBalance,
        ),
    decreases rs.len(),
{
    lemma_settlement_conserves_price(price, rs);
    if rs.len() > 0 {
        let init = rs.drop_last();
        let p = rs.last().percentage;
        assert(total_bps(init) >= 0) by {
            lemma_total_bps_prefix_monotone(rs, 0, rs.len() - 1);
            assert(rs.take(rs.len() - 1) =~= init);
        }
        lemma_royalties_within_price(price, init);
        lemma_settlement_conserves_price(price, init);
        let t0 = total_bps(init);
        if let Ok((pays0, rest0)) = settle_royalties(price, init) {
            let product = price * p;
            assert(price * (t0 + p) == price * t0 + product) by (nonlinear_arith)
                requires
                    product == price * p,
            ;
            assert(price * (t0 + p) <= price * 10000) by (nonlinear_arith)
                requires
                    price >= 0,
                    t0 + p <= 10000,
            ;
            assert(product >= 0) by (nonlinear_arith)
                requires
                    product == price * p,
                    price >= 0,
                    p >= 0,
            ;
            if product >= BASIS_POINTS && product <= i128::MAX {
                let amount = product / 10000;
                assert(amount * 10000 <= product && amount >= 0) by (nonlinear_arith)
                    requires
                        product >= 0,
                        amount == product / 10000,
                ;
                assert(total_paid(pays0) * 10000 + amount * 10000 <= price * 10000);
                assert(rest0 - amount >= 0);
                if let Ok((pays, rest)) = settle_royalties(price, rs) {
                    assert(pays.drop_last() =~= pays0);
                    assert(pays.last().amount == amount);
                }
            }
        }
    }
}

/// A purchase pays out exactly the listing price: the royalties and the
/// seller's amount add up to it; every royalty transfer is positive; and in
/// a reachable storage, when the price is not negative, the seller's amount
/// is between zero and the price.
pub proof fn lemma_purchase_pays_listing_price(
    s: MarketplaceState,
    buyer: AccountId,
    listing_id: u32,
    now: u64,
)
    requires
        state_inv(s),
    ensures
        purchase_step(s, buyer, listing_id, now).1 matches Ok(st) ==> {
            &&& total_paid(st.royalties) + st.seller_amount == st.sale.price
            &&& forall|k: int| 0 <= k < st.royalties.len() ==> #[trigger] st.royalties[k].amount > 0
            &&& st.sale.price >= 0 ==> 0 <= st.seller_amount <= st.sale.price
            &&& st.sale.price == s.listings[listing_id as int].price
            &&& st.payment_token == s.admin
        },
{
    if listing_id < s.listings.len() {
        let price = s.listings[listing_id as int].price;
        if let Some(c) = s.royalty {
            if c.active {
                lemma_settlement_conserves_price(price, c.recipients);
                if price >= 0 {
                    lemma_royalties_within_price(price, c.recipients);
                }
            }
        }
    }
}

/// A listing is sold at most once: after a successful purchase, buying it
/// again fails with `ListingNotActive` and cancelling it fails with
/// `ListingAlreadyInactive`.
pub proof fn lemma_listing_sold_once(
    s: MarketplaceState,
    buyer: AccountId,
    listing_id: u32,
    now: u64,
    other_buyer: AccountId,
    later: u64,
    seller: AccountId,
)
    requires
        purchase_step(s, buyer, listing_id, now).1 is Ok,
    ensures
        ({
            let after = purchase_step(s, buyer, listing_id, now).0;
            &&& purchase_step(after, other_buyer, listing_id, later).1 == Err::<
                SettlementView,
                MarketplaceError,
            >(MarketplaceError::ListingNotActive)
            &&& purchase_step(after, other_buyer, listing_id, later).0 == after
            &&& cancel_listing_step(after, seller, listing_id).1 is Err
        }),
{
}

/// A purchase that goes through leaves its record behind: the listing reads
/// back inactive and otherwise as it was listed, every other listing is
/// unchanged, the sale (buyer, seller, ticket, price and time) is appended to
/// the sales, and the buyer's transactions end with it.
pub proof fn lemma_purchase_records_sale(
    s: MarketplaceState,
    buyer: AccountId,
    listing_id: u32,
    now: u64,
)
    requires
        purchase_step(s, buyer, listing_id, now).1 is Ok,
    ensures
        ({
            let after = purchase_step(s, buyer, listing_id, now).0;
            let l = s.listings[listing_id as int];
            let sale = Sale {
                buyer,
                seller: l.seller,
                ticket_contract: l.ticket_contract,
                token_id: l.token_id,
                price: l.price,
                timestamp: now,
            };
            &&& listing_id < s.listings.len()
            &&& after.listings.len() == s.listings.len()
            &&& after.listings[listing_id as int] == Listing { active: false, ..l }
            &&& forall|j: int|
                0 <= j < s.listings.len() && j != listing_id ==> #[trigger] after.listings[j]
                    == s.listings[j]
            &&& purchase_step(s, buyer, listing_id, now).1->Ok_0.sale == sale
            &&& after.sales == s.sales.push(sale)
            &&& after.sales.filter(sale_involves(buyer)) == s.sales.filter(
                sale_involves(buyer),
            ).push(sale)
        }),
{
    let after = purchase_step(s, buyer, listing_id, now).0;
    let sale = purchase_step(s, buyer, listing_id, now).1->Ok_0.sale;
    assert(after.sales.drop_last() =~= s.sales);
    reveal_with_fuel(Seq::filter, 1);
    assert(sale_involves(buyer)(sale));
}

/// One operation leaves an inactive listing as it is.
proof fn lemma_op_keeps_inactive_listing(s: MarketplaceState, listing_id: u32, op: MarketplaceOp)
    requires
        listing_id < s.listings.len(),
        !s.listings[listing_id as int].active,
    ensures
        listing_id < apply_op(s, op).listings.len(),
        apply_op(s, op).listings[listing_id as int] == s.listings[listing_id as int],
{
}

/// A listing that was sold or cancelled stays so, whatever operations follow:
/// it keeps its number and every field, and buying it fails with
/// `ListingNotActive`.
pub proof fn lemma_inactive_listing_stays_inactive(
    s: MarketplaceState,
    listing_id: u32,
    ops: Seq<MarketplaceOp>,
    buyer: AccountId,
    now: u64,
)
    requires
        listing_id < s.listings.len(),
        !s.listings[listing_id as int].active,
    ensures
        listing_id < run_ops(s, ops).listings.len(),
        run_ops(s, ops).listings[listing_id as int] == s.listings[listing_id as int],
        purchase_step(run_ops(s, ops), buyer, listing_id, now).1 == Err::<
            SettlementView,
            MarketplaceError,
        >(MarketplaceError::ListingNotActive),
    decreases ops.len(),
{
    if ops.len() > 0 {
        lemma_inactive_listing_stays_inactive(s, listing_id, ops.drop_last(), buyer, now);
        lemma_op_keeps_inactive_listing(run_ops(s, ops.drop_last()), listing_id, ops.last());
    }
}

/// Switching royalty payouts on or off: it succeeds exactly for the
/// administrator once a configuration exists; the configuration then has
/// the requested switch and keeps its recipients and total; and switching
/// off and back on leaves the configuration active again with the same
/// recipients, so purchases pay royalties again.
pub proof fn lemma_toggle_royalty(
    s: MarketplaceState,
    admin: AccountId,
    active: bool,
    second: bool,
)
    ensures
        ({
            let (after, res) = toggle_royalty_step(s, admin, active);
            &&& res is Ok <==> (admin == s.admin && s.royalty is Some)
            &&& res is Ok ==> {
                &&& after.royalty is Some
                &&& after.royalty.unwrap().active == active
                &&& after.royalty.unwrap().recipients == s.royalty.unwrap().recipients
                &&& after.royalty.unwrap().total_percentage == s.royalty.unwrap().total_percentage
                &&& after.listings == s.listings
                &&& after.sales == s.sales
            }
            &&& res is Err ==> after == s
            &&& res is Ok ==> {
                let again = toggle_royalty_step(after, admin, second).0;
                &&& again.royalty.unwrap().active == second
                &&& again.royalty.unwrap().recipients == s.royalty.unwrap().recipients
                &&& second ==> forall|price: i128| #[trigger] purchase_split(again, price)
                    == settle_royalties(price, s.royalty.unwrap().recipients)
                &&& !second ==> forall|price: i128| #[trigger] purchase_split(again, price)
                    == Ok::<(Seq<RoyaltyPayment>, i128), MarketplaceError>((Seq::empty(), price))
            }
        }),
{
}

/// What the administrator's royalty edits do.  Installing or replacing the
/// recipients succeeds exactly when their shares sum to at most one hundred
/// percent (a replacement also names at most the allowed number of
/// recipients), and the configuration is then those recipients, with their
/// sum recorded, and active.  For an existing recipient, a new account always
/// takes its place with the same share; a new share is taken exactly when
/// the shares then sum to at most one hundred percent, and the recorded
/// total is that sum.  Edits keep the switch and the other recipients.
pub proof fn lemma_royalty_configuration_rules(
    s: MarketplaceState,
    recipients: Seq<RoyaltyRecipient>,
    index: u32,
    new_recipient: AccountId,
    new_percentage: u32,
)
    requires
        state_inv(s),
    ensures
        ({
            let (a, r) = initialize_royalty_step(s, s.admin, recipients);
            &&& r is Ok <==> total_bps(recipients) <= 10000
            &&& r is Ok ==> a.royalty == Some(
                RoyaltyConfigView {
                    recipients,
                    total_percentage: total_bps(recipients) as u32,
                    active: true,
                },
            )
        }),
        ({
            let (a, r) = update_royalty_step(s, s.admin, recipients);
            &&& r is Ok <==> (recipients.len() <= s.max_royalty_recipients && total_bps(recipients)
                <= 10000)
            &&& r is Ok ==> a.royalty == Some(
                RoyaltyConfigView {
                    recipients,
                    total_percentage: total_bps(recipients) as u32,
                    active: true,
                },
            )
        }),
        s.royalty is Some && index < s.royalty.unwrap().recipients.len() ==> ({
            let c = s.royalty.unwrap();
            let (a, r) = update_royalty_recipient_step(s, s.admin, index, new_recipient);
            &&& r is Ok
            &&& a.royalty.unwrap().active == c.active
            &&& a.royalty.unwrap().total_percentage == c.total_percentage
            &&& a.royalty.unwrap().recipients.len() == c.recipients.len()
            &&& a.royalty.unwrap().recipients[index as int].recipient == new_recipient
            &&& a.royalty.unwrap().recipients[index as int].percentage
                == c.recipients[index as int].percentage
            &&& forall|j: int|
                0 <= j < c.recipients.len() && j != index ==> #[trigger] a.royalty.unwrap().recipients[j]
                    == c.recipients[j]
        }),
        s.royalty is Some && index < s.royalty.unwrap().recipients.len() ==> ({
            let c = s.royalty.unwrap();
            let edited = c.recipients.update(
                index as int,
                RoyaltyRecipient {
                    recipient: c.recipients[index as int].recipient,
                    percentage: new_percentage,
                },
            );
            let (a, r) = update_royalty_percentage_step(s, s.admin, index, new_percentage);
            &&& r is Ok <==> total_bps(edited) <= 10000
            &&& r is Ok ==> a.royalty == Some(
                RoyaltyConfigView {
                    recipients: edited,
                    total_percentage: total_bps(edited) as u32,
                    active: c.active,
                },
            )
            &&& r is Err ==> r == Err::<(), MarketplaceError>(
                MarketplaceError::InvalidRoyaltyPercentage,
            ) && a == s
        }),
{
    if s.royalty is Some && index < s.royalty.unwrap().recipients.len() {
        let c = s.royalty.unwrap();
        let old = c.recipients[index as int];
        let without = c.recipients.update(
            index as int,
            RoyaltyRecipient { recipient: old.recipient, percentage: 0 },
        );
        lemma_total_bps_nonneg(without);
        lemma_total_bps_update(
            c.recipients,
            index as int,
            RoyaltyRecipient { recipient: old.recipient, percentage: 0 },
        );
        lemma_total_bps_update(
            c.recipients,
            index as int,
            RoyaltyRecipient { recipient: old.recipient, percentage: new_percentage },
        );
    }
}

/// Cancelling succeeds exactly for the seller of an existing active listing;
/// the listing is then inactive and otherwise unchanged, and nothing else
/// changes.  A purchase is refused for a missing or inactive listing and for
/// its own seller.
pub proof fn lemma_cancel_and_purchase_rules(
    s: MarketplaceState,
    caller: AccountId,
    listing_id: u32,
    now: u64,
)
    ensures
        ({
            let (after, res) = cancel_listing_step(s, caller, listing_id);
            &&& res is Ok <==> (listing_id < s.listings.len() && s.listings[listing_id as int].seller
                == caller && s.listings[listing_id as int].active)
            &&& res is Ok ==> after == MarketplaceState {
                listings: s.listings.update(
                    listing_id as int,
                    Listing { active: false, ..s.listings[listing_id as int] },
                ),
                ..s
            }
            &&& res is Err ==> after == s
        }),
        ({
            let res = purchase_step(s, caller, listing_id, now).1;
            &&& listing_id >= s.listings.len() ==> res == Err::<SettlementView, MarketplaceError>(
                MarketplaceError::ListingNotFound,
            )
            &&& listing_id < s.listings.len() && !s.listings[listing_id as int].active ==> res
                == Err::<SettlementView, MarketplaceError>(MarketplaceError::ListingNotActive)
            &&& listing_id < s.listings.len() && s.listings[listing_id as int].active
                && s.listings[listing_id as int].seller == caller ==> res == Err::<
                SettlementView,
                MarketplaceError,
            >(MarketplaceError::CannotPurchaseOwnListing)
        }),
{
}

/// A cancelled listing cannot be bought.
pub proof fn lemma_cancelled_listing_not_for_sale(
    s: MarketplaceState,
    seller: AccountId,
    listing_id: u32,
    buyer: AccountId,
    now: u64,
)
    requires
        cancel_listing_step(s, seller, listing_id).1 is Ok,
    ensures
        purchase_step(cancel_listing_step(s, seller, listing_id).0, buyer, listing_id, now).1
            == Err::<SettlementView, MarketplaceError>(MarketplaceError::ListingNotActive),
{
}

/// A new listing is found again under the number it was given, active and as
/// listed, and the listings made before it are unchanged.
pub proof fn lemma_listing_read_back(
    s: MarketplaceState,
    seller: AccountId,
    ticket_contract: AccountId,
    token_id: i128,
    price: i128,
    now: u64,
)
    requires
        s.listings.len() < u32::MAX,
    ensures
        ({
            let (after, id) = create_listing_step(s, seller, ticket_contract, token_id, price, now);
            &&& id == s.listings.len()
            &&& after.listings[id as int] == Listing {
                seller,
                ticket_contract,
                token_id,
                price,
                active: true,
                created_at: now,
            }
            &&& after.listings.subrange(0, id as int) == s.listings
        }),
{
    let (after, id) = create_listing_step(s, seller, ticket_contract, token_id, price, now);
    assert(after.listings.subrange(0, id as int) =~= s.listings);
}

/// Every step of the contract keeps its storage reachable: in particular a
/// royalty configuration never records shares above one hundred percent.
pub proof fn lemma_royalty_steps_keep_invariant(
    s: MarketplaceState,
    admin: AccountId,
    recipients: Seq<RoyaltyRecipient>,
    index: u32,
    new_recipient: AccountId,
    new_percentage: u32,
    active: bool,
)
    requires
        state_inv(s),
    ensures
        state_inv(initialize_royalty_step(s, admin, recipients).0),
        state_inv(update_royalty_step(s, admin, recipients).0),
        state_inv(update_royalty_recipient_step(s, admin, index, new_recipient).0),
        state_inv(update_royalty_percentage_step(s, admin, index, new_percentage).0),
        state_inv(toggle_royalty_step(s, admin, active).0),
{
    lemma_total_bps_nonneg(recipients);
    if royalty_edit_error(s, admin, index) is None {
        let c = s.royalty.unwrap();
        let old = c.recipients[index as int];
        lemma_total_bps_update(
            c.recipients,
            index as int,
            RoyaltyRecipient { recipient: new_recipient, percentage: old.percentage },
        );
        lemma_total_bps_update(
            c.recipients,
            index as int,
            RoyaltyRecipient { recipient: old.recipient, percentage: new_percentage },
        );
    }
}

impl View for MarketplaceContract {
    type V = MarketplaceState;

    closed spec fn view(&self) -> MarketplaceState {
        MarketplaceState {
            price_cap: self.price_cap,
            admin: self.admin,
            listings: self.listings@,
            sales: self.sales@,
            max_listings_per_user: self.max_listings_per_user,
            royalty: self.spec_royalty(),
            max_royalty_recipients: self.max_royalty_recipients,
        }
    }
}

} // verus!
