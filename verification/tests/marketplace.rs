use crowdpass::marketplace::{
    Listing, MarketplaceContract, MarketplaceError, RoyaltyPayment, RoyaltyRecipient, Sale,
};
use crowdpass::AccountId;

const ADMIN: AccountId = 1000;
const SELLER: AccountId = 1;
const BUYER: AccountId = 2;
const TICKETS: AccountId = 500;

fn market() -> MarketplaceContract {
    MarketplaceContract::new(ADMIN, 3, 1)
}

fn rr(recipient: AccountId, percentage: u32) -> RoyaltyRecipient {
    RoyaltyRecipient { recipient, percentage }
}

#[test]
fn construction() {
    let m = market();
    assert_eq!(m.admin(), ADMIN);
    let cap = m.price_cap();
    assert_eq!((cap.max_price_multiplier, cap.min_price_multiplier, cap.active), (3, 1, true));
    assert_eq!(m.total_listings(), 0);
    assert_eq!(m.total_sales(), 0);
    assert!(m.get_royalty_config().is_none());
}

#[test]
fn listing_numbers_and_read_back() {
    let mut m = market();
    assert_eq!(m.create_listing(SELLER, TICKETS, 7, 100, 1, 55), 0);
    assert_eq!(m.create_listing(SELLER, TICKETS, 8, 200, 1, 56), 1);
    assert_eq!(
        m.get_listing(0),
        Some(Listing { seller: SELLER, ticket_contract: TICKETS, token_id: 7, price: 100, active: true, created_at: 55 })
    );
    assert_eq!(m.get_listing(2), None);
    assert_eq!(m.total_listings(), 2);
}

#[test]
fn purchase_without_royalties_pays_seller() {
    let mut m = market();
    let id = m.create_listing(SELLER, TICKETS, 7, 1000, 1, 0);
    let st = m.purchase_ticket(BUYER, id, 99).unwrap();
    assert_eq!(st.payment_token, ADMIN);
    assert!(st.royalties.is_empty());
    assert_eq!(st.seller_amount, 1000);
    assert_eq!(
        st.sale,
        Sale { buyer: BUYER, seller: SELLER, ticket_contract: TICKETS, token_id: 7, price: 1000, timestamp: 99 }
    );
    assert!(!m.get_listing(id).unwrap().active);
    assert_eq!(m.total_sales(), 1);
    // Sold once only.
    assert_eq!(m.purchase_ticket(3, id, 100).unwrap_err(), MarketplaceError::ListingNotActive);
    assert_eq!(m.cancel_listing(SELLER, id), Err(MarketplaceError::ListingAlreadyInactive));
}

#[test]
fn purchase_with_royalties_splits_price() {
    let mut m = market();
    // 2.5% and 10%.
    m.initialize_royalty_config(ADMIN, vec![rr(10, 250), rr(11, 1000)]).unwrap();
    let cfg = m.get_royalty_config().unwrap();
    assert_eq!(cfg.total_percentage, 1250);
    assert!(cfg.active);
    let id = m.create_listing(SELLER, TICKETS, 7, 999, 1, 0);
    let st = m.purchase_ticket(BUYER, id, 5).unwrap();
    // 999 * 250 / 10000 = 24 (truncated); 999 * 1000 / 10000 = 99.
    assert_eq!(
        st.royalties,
        vec![
            RoyaltyPayment { recipient: 10, percentage: 250, amount: 24 },
            RoyaltyPayment { recipient: 11, percentage: 1000, amount: 99 },
        ]
    );
    assert_eq!(st.seller_amount, 999 - 24 - 99);
    let total: i128 = st.royalties.iter().map(|p| p.amount).sum::<i128>() + st.seller_amount;
    assert_eq!(total, 999);
}

#[test]
fn tiny_royalties_are_skipped() {
    let mut m = market();
    m.initialize_royalty_config(ADMIN, vec![rr(10, 1)]).unwrap();
    let id = m.create_listing(SELLER, TICKETS, 7, 9999, 1, 0);
    let st = m.purchase_ticket(BUYER, id, 0).unwrap();
    assert!(st.royalties.is_empty());
    assert_eq!(st.seller_amount, 9999);
}

#[test]
fn full_royalty_leaves_seller_nothing() {
    let mut m = market();
    m.initialize_royalty_config(ADMIN, vec![rr(10, 6000), rr(11, 4000)]).unwrap();
    let id = m.create_listing(SELLER, TICKETS, 7, 10, 1, 0);
    let st = m.purchase_ticket(BUYER, id, 0).unwrap();
    assert_eq!(st.royalties.len(), 2);
    assert_eq!(st.royalties[0].amount, 6);
    assert_eq!(st.royalties[1].amount, 4);
    assert_eq!(st.seller_amount, 0);
}

#[test]
fn inactive_royalties_are_not_paid() {
    let mut m = market();
    m.initialize_royalty_config(ADMIN, vec![rr(10, 5000)]).unwrap();
    m.toggle_royalty_config(ADMIN, false).unwrap();
    let id = m.create_listing(SELLER, TICKETS, 7, 100, 1, 0);
    let st = m.purchase_ticket(BUYER, id, 0).unwrap();
    assert!(st.royalties.is_empty());
    assert_eq!(st.seller_amount, 100);
}

#[test]
fn royalty_overflow_is_rejected() {
    let mut m = market();
    m.initialize_royalty_config(ADMIN, vec![rr(10, 5000)]).unwrap();
    let id = m.create_listing(SELLER, TICKETS, 7, i128::MAX / 2, 1, 0);
    assert_eq!(m.purchase_ticket(BUYER, id, 0).unwrap_err(), MarketplaceError::InvalidRoyaltyPercentage);
    // Nothing changed.
    assert!(m.get_listing(id).unwrap().active);
    assert_eq!(m.total_sales(), 0);
}

#[test]
fn purchase_errors() {
    let mut m = market();
    assert_eq!(m.purchase_ticket(BUYER, 0, 0).unwrap_err(), MarketplaceError::ListingNotFound);
    let id = m.create_listing(SELLER, TICKETS, 7, 100, 1, 0);
    assert_eq!(m.purchase_ticket(SELLER, id, 0).unwrap_err(), MarketplaceError::CannotPurchaseOwnListing);
}

#[test]
fn cancel_listing_rules() {
    let mut m = market();
    assert_eq!(m.cancel_listing(SELLER, 0), Err(MarketplaceError::ListingNotFound));
    let id = m.create_listing(SELLER, TICKETS, 7, 100, 1, 0);
    assert_eq!(m.cancel_listing(BUYER, id), Err(MarketplaceError::OnlySellerCanCancel));
    m.cancel_listing(SELLER, id).unwrap();
    assert_eq!(m.purchase_ticket(BUYER, id, 0).unwrap_err(), MarketplaceError::ListingNotActive);
}

#[test]
fn listing_queries() {
    let mut m = market();
    for i in 0..5 {
        let seller = if i % 2 == 0 { SELLER } else { 3 };
        m.create_listing(seller, TICKETS, i, 10 + i, 1, 0);
    }
    m.cancel_listing(SELLER, 2).unwrap();
    m.purchase_ticket(BUYER, 1, 0).unwrap();
    let active: Vec<i128> = m.get_active_listings(0, 10).iter().map(|l| l.token_id).collect();
    assert_eq!(active, vec![0, 3, 4]);
    let active: Vec<i128> = m.get_active_listings(1, 3).iter().map(|l| l.token_id).collect();
    assert_eq!(active, vec![3]);
    assert!(m.get_active_listings(9, 3).is_empty());
    let all: Vec<i128> = m.get_seller_listings(SELLER, false).iter().map(|l| l.token_id).collect();
    assert_eq!(all, vec![0, 2, 4]);
    let live: Vec<i128> = m.get_seller_listings(SELLER, true).iter().map(|l| l.token_id).collect();
    assert_eq!(live, vec![0, 4]);
    let txs = m.get_user_transactions(BUYER);
    assert_eq!(txs.len(), 1);
    assert_eq!(txs[0].token_id, 1);
    assert_eq!(m.get_user_transactions(3).len(), 1);
    assert!(m.get_user_transactions(SELLER).is_empty());
}

#[test]
fn price_cap_updates() {
    let mut m = market();
    assert_eq!(m.update_price_cap(BUYER, 5, 2, false), Err(MarketplaceError::Unauthorized));
    m.update_price_cap(ADMIN, 5, 2, false).unwrap();
    let cap = m.price_cap();
    assert_eq!((cap.max_price_multiplier, cap.min_price_multiplier, cap.active), (5, 2, false));
    // With the cap off a free listing is allowed, and pays nothing.
    let id = m.create_listing(SELLER, TICKETS, 1, 0, 1, 0);
    let st = m.purchase_ticket(BUYER, id, 0).unwrap();
    assert_eq!(st.seller_amount, 0);
}

#[test]
fn royalty_configuration_rules() {
    let mut m = market();
    assert_eq!(m.initialize_royalty_config(BUYER, vec![]), Err(MarketplaceError::Unauthorized));
    assert_eq!(
        m.initialize_royalty_config(ADMIN, vec![rr(1, 6000), rr(2, 4001)]),
        Err(MarketplaceError::InvalidRoyaltyPercentage)
    );
    assert_eq!(
        m.initialize_royalty_config(ADMIN, vec![rr(1, u32::MAX), rr(2, 1)]),
        Err(MarketplaceError::InvalidRoyaltyPercentage)
    );
    assert_eq!(m.update_royalty_recipient(ADMIN, 0, 9), Err(MarketplaceError::RoyaltyConfigNotFound));
    assert_eq!(m.toggle_royalty_config(ADMIN, true), Err(MarketplaceError::RoyaltyConfigNotFound));
    let eleven: Vec<RoyaltyRecipient> = (0..11).map(|i| rr(i, 10)).collect();
    assert_eq!(m.update_royalty_config(ADMIN, eleven), Err(MarketplaceError::RoyaltyRecipientsExceeded));
    m.update_royalty_config(ADMIN, vec![rr(1, 100), rr(2, 200)]).unwrap();
    m.update_royalty_recipient(ADMIN, 1, 9).unwrap();
    assert_eq!(m.update_royalty_recipient(ADMIN, 2, 9), Err(MarketplaceError::RoyaltyConfigNotFound));
    m.update_royalty_percentage(ADMIN, 0, 9800).unwrap();
    assert_eq!(
        m.update_royalty_percentage(ADMIN, 1, 201),
        Err(MarketplaceError::InvalidRoyaltyPercentage)
    );
    let cfg = m.get_royalty_config().unwrap();
    assert_eq!(cfg.recipients, vec![rr(1, 9800), rr(9, 200)]);
    assert_eq!(cfg.total_percentage, 10000);
    assert_eq!(m.update_royalty_percentage(BUYER, 0, 1), Err(MarketplaceError::Unauthorized));
    assert_eq!(m.toggle_royalty_config(BUYER, false), Err(MarketplaceError::Unauthorized));
}

#[test]
fn marketplace_error_codes() {
    assert_eq!(MarketplaceError::ListingNotFound.code(), 1);
    assert_eq!(MarketplaceError::PaymentTokenNotConfigured.code(), 4);
    assert_eq!(MarketplaceError::PriceMustBePositive.code(), 7);
    assert_eq!(MarketplaceError::InsufficientBalance.code(), 8);
    assert_eq!(MarketplaceError::RoyaltyRecipientsExceeded.code(), 12);
}

#[test]
fn quote_matches_purchase_and_changes_nothing() {
    let mut m = market();
    m.initialize_royalty_config(ADMIN, vec![rr(7, 1000)]).unwrap();
    let id = m.create_listing(SELLER, TICKETS, 7, 1000, 1, 0);
    assert_eq!(m.quote_purchase(SELLER, id, 5).unwrap_err(), MarketplaceError::CannotPurchaseOwnListing);
    assert_eq!(m.quote_purchase(BUYER, 9, 5).unwrap_err(), MarketplaceError::ListingNotFound);
    let q = m.quote_purchase(BUYER, id, 5).unwrap();
    assert_eq!(m.total_sales(), 0);
    assert!(m.get_listing(id).unwrap().active);
    let st = m.purchase_ticket(BUYER, id, 5).unwrap();
    assert_eq!(q.royalties, st.royalties);
    assert_eq!((q.seller_amount, q.sale), (st.seller_amount, st.sale));
    assert_eq!(st.seller_amount, 900);
    assert_eq!(m.get_user_transactions(BUYER), vec![st.sale]);
    assert_eq!(m.quote_purchase(3, id, 6).unwrap_err(), MarketplaceError::ListingNotActive);
}

#[test]
fn seller_payment_only_when_positive() {
    let mut m = market();
    m.initialize_royalty_config(ADMIN, vec![rr(7, 10000)]).unwrap();
    let id = m.create_listing(SELLER, TICKETS, 7, 1000, 1, 0);
    let st = m.purchase_ticket(BUYER, id, 5).unwrap();
    // The whole price goes to the royalty recipient; the seller gets no transfer.
    assert_eq!(st.royalties.len(), 1);
    assert_eq!(st.seller_amount, 0);
    assert_eq!(st.seller_payment(), None);
    let mut m2 = market();
    let id2 = m2.create_listing(SELLER, TICKETS, 8, 300, 1, 0);
    assert_eq!(m2.purchase_ticket(BUYER, id2, 5).unwrap().seller_payment(), Some(300));
}

#[test]
fn sold_listing_stays_sold_after_other_operations() {
    let mut m = market();
    let id = m.create_listing(SELLER, TICKETS, 7, 1000, 1, 0);
    let sold = m.purchase_ticket(BUYER, id, 5).unwrap().sale;
    let before = m.get_listing(id).unwrap();
    let other = m.create_listing(SELLER, TICKETS, 8, 500, 1, 6);
    m.initialize_royalty_config(ADMIN, vec![rr(7, 500)]).unwrap();
    m.toggle_royalty_config(ADMIN, false).unwrap();
    m.purchase_ticket(3, other, 7).unwrap();
    assert_eq!(m.cancel_listing(SELLER, id), Err(MarketplaceError::ListingAlreadyInactive));
    assert_eq!(m.get_listing(id), Some(before));
    assert!(!before.active);
    assert_eq!(m.purchase_ticket(4, id, 8).unwrap_err(), MarketplaceError::ListingNotActive);
    assert_eq!(m.get_user_transactions(BUYER), vec![sold]);
}
