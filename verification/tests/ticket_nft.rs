use crowdpass::ticket_nft::{Error, TicketNft};
use crowdpass::AccountId;

const MINTER: AccountId = 100;
const USER1: AccountId = 1;
const USER2: AccountId = 2;

fn setup() -> (TicketNft, Vec<u8>, Vec<u8>, Vec<u8>) {
    let name = b"Ticket NFT".to_vec();
    let symbol = b"TKT".to_vec();
    let base_uri = b"https://api.example.com/ticket/".to_vec();
    let nft = TicketNft::new(MINTER, name.clone(), symbol.clone(), base_uri.clone());
    (nft, name, symbol, base_uri)
}

#[test]
fn test_minting() {
    let (mut client, _, _, _) = setup();

    // Mint first ticket
    let token_id1 = client.mint_ticket_nft(USER1, 0).unwrap();
    assert_eq!(token_id1, 1);
    assert_eq!(client.owner_of(token_id1), Ok(USER1));
    assert_eq!(client.balance_of(USER1), 1);

    // Mint second ticket
    let token_id2 = client.mint_ticket_nft(USER2, 0).unwrap();
    assert_eq!(token_id2, 2);
    assert_eq!(client.owner_of(token_id2), Ok(USER2));
    assert_eq!(client.balance_of(USER2), 1);
}

#[test]
fn test_cannot_mint_twice_to_same_user() {
    let (mut client, _, _, _) = setup();

    client.mint_ticket_nft(USER1, 0).unwrap();
    let result = client.mint_ticket_nft(USER1, 0);
    assert!(result.is_err());
    assert_eq!(result, Err(Error::UserAlreadyHasTicket));
}

#[test]
fn test_transfer() {
    let (mut client, _, _, _) = setup();

    let token_id = client.mint_ticket_nft(USER1, 0).unwrap();

    client.transfer_from(USER1, USER2, token_id, 0).unwrap();

    assert_eq!(client.owner_of(token_id), Ok(USER2));
    assert_eq!(client.balance_of(USER1), 0);
    assert_eq!(client.balance_of(USER2), 1);
}

#[test]
fn test_cannot_transfer_to_user_with_ticket() {
    let (mut client, _, _, _) = setup();

    let token_id1 = client.mint_ticket_nft(USER1, 0).unwrap();
    let _token_id2 = client.mint_ticket_nft(USER2, 0).unwrap();

    let result = client.transfer_from(USER1, USER2, token_id1, 0);
    assert!(result.is_err());
    assert_eq!(result, Err(Error::RecipientAlreadyHasTicket));
}

#[test]
fn test_burn() {
    let (mut client, _, _, _) = setup();

    let token_id = client.mint_ticket_nft(USER1, 0).unwrap();
    assert!(client.is_valid(token_id));

    client.burn(token_id).unwrap();
    assert!(!client.is_valid(token_id));
    assert_eq!(client.balance_of(USER1), 0);
}

#[test]
fn test_cannot_transfer_burned_token() {
    let (mut client, _, _, _) = setup();

    let token_id = client.mint_ticket_nft(USER1, 0).unwrap();
    client.burn(token_id).unwrap();

    let result = client.transfer_from(USER1, USER2, token_id, 0);
    assert!(result.is_err());
    assert_eq!(result, Err(Error::InvalidTokenId));
}

#[test]
fn test_metadata() {
    let (mut client, name, symbol, base_uri) = setup();

    assert_eq!(client.name(), name);
    assert_eq!(client.symbol(), symbol);

    let token_id = client.mint_ticket_nft(USER1, 0).unwrap();

    // Check default URI (base_uri)
    assert_eq!(client.token_uri(token_id), base_uri);

    // Set custom URI
    let custom_uri = b"https://api.example.com/ticket/1-custom".to_vec();
    client.set_token_uri(token_id, custom_uri.clone()).unwrap();
    assert_eq!(client.token_uri(token_id), custom_uri);
}

#[test]
fn test_transfer_cooldown() {
    let (mut client, _, _, _) = setup();

    // Set 1 day cooldown
    client.set_transfer_restrictions(true, 86400, 0).unwrap();

    let token_id = client.mint_ticket_nft(USER1, 0).unwrap();

    // Try to transfer immediately
    let result = client.transfer_from(USER1, USER2, token_id, 0);
    assert!(result.is_err());
    assert_eq!(result, Err(Error::TransferCooldownActive));

    // Advance time by 1 day
    client.transfer_from(USER1, USER2, token_id, 86400 + 1).unwrap();
    assert_eq!(client.owner_of(token_id), Ok(USER2));
}

#[test]
fn test_transfers_disabled() {
    let (mut client, _, _, _) = setup();

    let token_id = client.mint_ticket_nft(USER1, 0).unwrap();

    // Disable transfers
    client.set_transfer_restrictions(false, 0, 0).unwrap();

    let result = client.transfer_from(USER1, USER2, token_id, 0);
    assert!(result.is_err());
    assert_eq!(result, Err(Error::TransferDisabled));
}

#[test]
fn test_blocklist() {
    let (mut client, _, _, _) = setup();

    let token_id = client.mint_ticket_nft(USER1, 0).unwrap();

    // Block user2
    client.set_blocklist(USER2, true).unwrap();
    assert!(client.is_blocked(USER2));

    let result = client.transfer_from(USER1, USER2, token_id, 0);
    assert!(result.is_err());
    assert_eq!(result, Err(Error::AddressBlocked));

    // Unblock user2
    client.set_blocklist(USER2, false).unwrap();
    assert!(!client.is_blocked(USER2));

    client.transfer_from(USER1, USER2, token_id, 0).unwrap();
    assert_eq!(client.owner_of(token_id), Ok(USER2));
}

#[test]
fn test_original_price() {
    let (mut client, _, _, _) = setup();

    let token_id = client.mint_ticket_nft(USER1, 0).unwrap();

    client.set_original_price(token_id, 100i128).unwrap();
    assert_eq!(client.get_original_price(token_id), 100i128);
}

// ── Further cases ────────────────────────────────────────────────────────

#[test]
fn constructor_defaults() {
    let (client, _, _, _) = setup();
    assert_eq!(client.get_minter(), Ok(MINTER));
    assert_eq!(client.get_organizer(), MINTER);
    assert_eq!(client.get_transfer_fee_bps(), 0);
    assert_eq!(client.balance_of(USER1), 0);
    assert_eq!(client.owner_of(1), Err(Error::InvalidTokenId));
    assert!(!client.is_valid(1));
    assert_eq!(client.get_original_price(1), 0);
}

#[test]
fn transfer_by_non_owner_is_unauthorized() {
    let (mut client, _, _, _) = setup();
    let token_id = client.mint_ticket_nft(USER1, 0).unwrap();
    assert_eq!(client.transfer_from(USER2, 3, token_id, 0), Err(Error::Unauthorized));
    assert_eq!(client.owner_of(token_id), Ok(USER1));
}

#[test]
fn transfer_of_unknown_token_fails() {
    let (mut client, _, _, _) = setup();
    assert_eq!(client.transfer_from(USER1, USER2, 7, 0), Err(Error::InvalidTokenId));
}

#[test]
fn blocked_sender_cannot_transfer() {
    let (mut client, _, _, _) = setup();
    let token_id = client.mint_ticket_nft(USER1, 0).unwrap();
    client.set_blocklist(USER1, true).unwrap();
    assert_eq!(client.transfer_from(USER1, USER2, token_id, 0), Err(Error::AddressBlocked));
}

#[test]
fn cooldown_restarts_after_each_transfer() {
    let (mut client, _, _, _) = setup();
    client.set_transfer_restrictions(true, 100, 25).unwrap();
    assert_eq!(client.get_transfer_fee_bps(), 25);
    let token_id = client.mint_ticket_nft(USER1, 10).unwrap();
    assert_eq!(client.transfer_from(USER1, USER2, token_id, 109), Err(Error::TransferCooldownActive));
    client.transfer_from(USER1, USER2, token_id, 110).unwrap();
    assert_eq!(client.transfer_from(USER2, USER1, token_id, 209), Err(Error::TransferCooldownActive));
    client.transfer_from(USER2, USER1, token_id, 210).unwrap();
    assert_eq!(client.owner_of(token_id), Ok(USER1));
}

#[test]
fn burned_holder_can_receive_again() {
    let (mut client, _, _, _) = setup();
    let t1 = client.mint_ticket_nft(USER1, 0).unwrap();
    client.burn(t1).unwrap();
    assert_eq!(client.burn(t1), Err(Error::InvalidTokenId));
    let t2 = client.mint_ticket_nft(USER1, 0).unwrap();
    assert_eq!(t2, 2);
    assert_eq!(client.balance_of(USER1), 1);
    assert_eq!(client.owner_of(t2), Ok(USER1));
}

#[test]
fn metadata_setters_need_a_valid_token() {
    let (mut client, _, _, _) = setup();
    assert_eq!(client.set_token_uri(3, b"x".to_vec()), Err(Error::InvalidTokenId));
    assert_eq!(client.set_original_price(3, 5), Err(Error::InvalidTokenId));
    client.set_organizer(42).unwrap();
    assert_eq!(client.get_organizer(), 42);
}

#[test]
fn one_ticket_per_holder_across_operations() {
    let (mut client, _, _, _) = setup();
    let a = client.mint_ticket_nft(1, 0).unwrap();
    let b = client.mint_ticket_nft(2, 0).unwrap();
    let _c = client.mint_ticket_nft(3, 0).unwrap();
    // 2 already holds b, so a cannot go there.
    assert_eq!(client.transfer_from(1, 2, a, 0), Err(Error::RecipientAlreadyHasTicket));
    client.burn(b).unwrap();
    client.transfer_from(1, 2, a, 0).unwrap();
    for holder in 1..=3u64 {
        assert!(client.balance_of(holder) <= 1);
    }
    assert_eq!(client.balance_of(1), 0);
    assert_eq!(client.balance_of(2), 1);
    assert_eq!(client.balance_of(3), 1);
}

#[test]
fn ticket_nft_error_codes() {
    assert_eq!(Error::UserAlreadyHasTicket.code(), 1);
    assert_eq!(Error::InvalidTokenId.code(), 2);
    assert_eq!(Error::Unauthorized.code(), 3);
    assert_eq!(Error::RecipientAlreadyHasTicket.code(), 4);
    assert_eq!(Error::NotInitialized.code(), 5);
    assert_eq!(Error::TransferDisabled.code(), 6);
    assert_eq!(Error::TransferCooldownActive.code(), 7);
    assert_eq!(Error::AddressBlocked.code(), 8);
}

#[test]
fn token_uri_holds_any_bytes() {
    let (mut client, _, _, _) = setup();
    let token_id = client.mint_ticket_nft(USER1, 0).unwrap();
    // Bytes that are not valid UTF-8 are kept as they are.
    client.set_token_uri(token_id, vec![0xff, 0x00, 0xfe]).unwrap();
    assert_eq!(client.token_uri(token_id), vec![0xff, 0x00, 0xfe]);
}

#[test]
fn burned_token_number_is_not_handed_out_again() {
    let (mut client, _, _, _) = setup();
    let first = client.mint_ticket_nft(USER1, 0).unwrap();
    client.burn(first).unwrap();
    assert!(!client.is_valid(first));
    let second = client.mint_ticket_nft(USER1, 1).unwrap();
    assert_eq!(second, first + 1);
    let third = client.mint_ticket_nft(USER2, 2).unwrap();
    assert_eq!(third, second + 1);
}
