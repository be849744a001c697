use crowdpass::event_manager::{Error, Invocation, MockTargetContract, MultiSigContract};
use crowdpass::AccountId;

/// Runs an invocation against the mock target, as the host would.
fn dispatch(call: &Invocation, target_id: AccountId) -> u32 {
    assert_eq!(call.target, target_id);
    assert_eq!(call.function, "ping");
    // The argument is a 32-bit value in big-endian bytes.
    let arg: [u8; 4] = call.args[0].as_slice().try_into().unwrap();
    MockTargetContract::ping(u32::from_be_bytes(arg))
}

#[test]
fn test_multisig_flow() {
    let mut multisig_client = MultiSigContract::new();
    let target_id: AccountId = 900;

    let signer1: AccountId = 1;
    let signer2: AccountId = 2;
    let signer3: AccountId = 3;

    // Initialize with 3 signers and a threshold of 2
    let signers = vec![signer1, signer2, signer3];
    multisig_client.init(signers, 2).unwrap();

    let args: Vec<Vec<u8>> = vec![21u32.to_be_bytes().to_vec()];
    let function = String::from("ping");

    // 1. Propose
    let proposal_id = multisig_client.propose(signer1, target_id, function, args).unwrap();
    assert_eq!(proposal_id, 1);

    // 2. Approve (Signer 1 and Signer 2)
    multisig_client.approve(signer1, proposal_id).unwrap();

    // Attempting to execute prematurely should fail
    let fail_exec = multisig_client.execute(signer1, proposal_id);
    assert_eq!(fail_exec.unwrap_err(), Error::NotEnoughApprovals);

    multisig_client.approve(signer2, proposal_id).unwrap();

    // 3. Execute
    let call = multisig_client.execute(signer1, proposal_id).unwrap();
    let result = dispatch(&call, target_id);

    // 21 * 2 = 42
    assert_eq!(result, 42);
}

#[test]
fn test_unauthorized_propose() {
    let mut multisig_client = MultiSigContract::new();

    let signer1: AccountId = 1;
    let non_signer: AccountId = 2;

    let signers = vec![signer1];
    multisig_client.init(signers, 1).unwrap();

    let target: AccountId = 3;
    let res = multisig_client.propose(non_signer, target, String::from("ping"), vec![]);

    assert_eq!(res.unwrap_err(), Error::Unauthorized);
}

#[test]
fn test_double_approve_fails() {
    let mut multisig_client = MultiSigContract::new();

    let signer: AccountId = 1;
    multisig_client.init(vec![signer], 1).unwrap();

    let id = multisig_client.propose(signer, 5, String::from("x"), vec![]).unwrap();
    multisig_client.approve(signer, id).unwrap();

    let res = multisig_client.approve(signer, id);
    assert_eq!(res.unwrap_err(), Error::AlreadyApproved);
}

// ── Further cases ────────────────────────────────────────────────────────

#[test]
fn init_rejects_bad_thresholds_and_reinit() {
    let mut m = MultiSigContract::new();
    assert_eq!(m.init(vec![1, 2], 0), Err(Error::InvalidThreshold));
    assert_eq!(m.init(vec![1, 2], 3), Err(Error::InvalidThreshold));
    assert_eq!(m.threshold(), None);
    m.init(vec![1, 2], 2).unwrap();
    assert_eq!(m.threshold(), Some(2));
    assert!(m.is_signer(1) && m.is_signer(2) && !m.is_signer(3));
    assert_eq!(m.init(vec![1], 1), Err(Error::AlreadyInitialized));
}

#[test]
fn proposals_are_numbered_in_order() {
    let mut m = MultiSigContract::new();
    m.init(vec![1], 1).unwrap();
    assert_eq!(m.propose(1, 9, String::from("a"), vec![vec![1], vec![2, 0]]), Ok(1));
    assert_eq!(m.propose(1, 9, String::from("b"), vec![]), Ok(2));
    let p = m.get_proposal(1).unwrap();
    assert_eq!(p.function, "a");
    assert_eq!(p.args, vec![vec![1], vec![2, 0]]);
    assert_eq!(p.approvals, 0);
    assert!(!p.executed);
    assert!(m.get_proposal(3).is_none());
    assert!(m.get_proposal(0).is_none());
}

#[test]
fn approve_and_execute_errors() {
    let mut m = MultiSigContract::new();
    m.init(vec![1, 2], 1).unwrap();
    assert_eq!(m.approve(7, 1), Err(Error::Unauthorized));
    assert_eq!(m.approve(1, 1), Err(Error::ProposalNotFound));
    assert_eq!(m.execute(7, 1).unwrap_err(), Error::Unauthorized);
    assert_eq!(m.execute(1, 1).unwrap_err(), Error::ProposalNotFound);
    let id = m.propose(2, 9, String::from("f"), vec![vec![4]]).unwrap();
    m.approve(2, id).unwrap();
    let call = m.execute(1, id).unwrap();
    assert_eq!(call.target, 9);
    assert_eq!(call.function, "f");
    assert_eq!(call.args, vec![vec![4]]);
    assert!(m.get_proposal(id).unwrap().executed);
    assert_eq!(m.execute(1, id).unwrap_err(), Error::AlreadyExecuted);
    assert_eq!(m.approve(1, id), Err(Error::AlreadyExecuted));
}

#[test]
fn approvals_count_distinct_signers() {
    let mut m = MultiSigContract::new();
    m.init(vec![1, 2, 3], 3).unwrap();
    let id = m.propose(1, 9, String::from("f"), vec![]).unwrap();
    m.approve(1, id).unwrap();
    m.approve(2, id).unwrap();
    assert_eq!(m.approve(2, id), Err(Error::AlreadyApproved));
    assert_eq!(m.get_proposal(id).unwrap().approvals, 2);
    assert_eq!(m.execute(3, id).unwrap_err(), Error::NotEnoughApprovals);
    m.approve(3, id).unwrap();
    assert!(m.execute(3, id).is_ok());
}

#[test]
fn uninitialized_wallet_has_no_signers() {
    let mut m = MultiSigContract::new();
    assert_eq!(m.propose(1, 2, String::from("f"), vec![]), Err(Error::Unauthorized));
}

#[test]
fn bounded_strings() {
    assert_eq!(MultiSigContract::validate_bounded_string(b"", 10), Err(Error::InvalidStringInput));
    assert_eq!(MultiSigContract::validate_bounded_string(b"abc", 3), Ok(()));
    assert_eq!(MultiSigContract::validate_bounded_string(b"abcd", 3), Err(Error::InvalidStringInput));
    // Length counts bytes: 'é' takes two.
    assert_eq!(MultiSigContract::validate_bounded_string("é".as_bytes(), 1), Err(Error::InvalidStringInput));
    assert_eq!(MultiSigContract::validate_bounded_string("é".as_bytes(), 2), Ok(()));
    // Any bytes count, whether or not they spell text.
    assert_eq!(MultiSigContract::validate_bounded_string(&[0xff, 0xfe], 2), Ok(()));
}

#[test]
fn ticket_prices() {
    let max = MultiSigContract::MAX_TICKET_PRICE;
    assert_eq!(MultiSigContract::validate_ticket_price(max), Ok(()));
    assert_eq!(MultiSigContract::validate_ticket_price(-5), Ok(()));
    assert_eq!(MultiSigContract::validate_ticket_price(max + 1), Err(Error::TicketPriceOutOfRange));
}

#[test]
fn event_spans() {
    let max = MultiSigContract::MAX_EVENT_DURATION_SECS;
    assert_eq!(MultiSigContract::validate_event_span(10, 10), Err(Error::EventScheduleOutOfRange));
    assert_eq!(MultiSigContract::validate_event_span(10, 5), Err(Error::EventScheduleOutOfRange));
    assert_eq!(MultiSigContract::validate_event_span(10, 10 + max), Ok(()));
    assert_eq!(MultiSigContract::validate_event_span(10, 11 + max), Err(Error::EventScheduleOutOfRange));
}

#[test]
fn start_not_too_far() {
    let ahead = MultiSigContract::MAX_EVENT_START_AHEAD_SECS;
    assert_eq!(MultiSigContract::validate_start_not_too_far(100 + ahead, 100), Ok(()));
    assert_eq!(
        MultiSigContract::validate_start_not_too_far(101 + ahead, 100),
        Err(Error::EventScheduleOutOfRange)
    );
    // The latest start saturates.
    assert_eq!(MultiSigContract::validate_start_not_too_far(u64::MAX, u64::MAX - 1), Ok(()));
}

#[test]
fn create_schedules() {
    let now = 1_790_000_000u64;
    assert_eq!(MultiSigContract::validate_create_schedule(now, now + 10, now), Err(Error::InvalidStartDate));
    assert_eq!(MultiSigContract::validate_create_schedule(now + 10, now + 10, now), Err(Error::InvalidEndDate));
    assert_eq!(MultiSigContract::validate_create_schedule(now + 10, now + 86_410, now), Ok(()));
    assert_eq!(
        MultiSigContract::validate_create_schedule(now + 10, now + 20 + MultiSigContract::MAX_EVENT_DURATION_SECS, now),
        Err(Error::EventScheduleOutOfRange)
    );
}

#[test]
fn organizer_limits() {
    let max = MultiSigContract::MAX_ORGANIZER_OPEN_EVENTS;
    let cooldown = MultiSigContract::EVENT_CREATE_COOLDOWN_SECS;
    assert_eq!(MultiSigContract::enforce_organizer_limits_and_rate(max, None, 0), Err(Error::TooManyOrganizerEvents));
    assert_eq!(MultiSigContract::enforce_organizer_limits_and_rate(0, Some(1000), 1000), Ok(()));
    assert_eq!(MultiSigContract::enforce_organizer_limits_and_rate(1, None, 1000), Ok(()));
    assert_eq!(
        MultiSigContract::enforce_organizer_limits_and_rate(1, Some(1000), 1000 + cooldown - 1),
        Err(Error::EventCreationRateLimited)
    );
    assert_eq!(MultiSigContract::enforce_organizer_limits_and_rate(1, Some(1000), 1000 + cooldown), Ok(()));
}

#[test]
fn mock_target_doubles() {
    assert_eq!(MockTargetContract::ping(21), 42);
}

#[test]
fn multisig_error_codes() {
    assert_eq!(Error::NotInitialized.code(), 1);
    assert_eq!(Error::MathOverflow.code(), 9);
    assert_eq!(Error::NotEnoughApprovals.code(), 8);
}

#[test]
fn multisig_executed_proposal_stays_executed() {
    let mut m = MultiSigContract::new();
    m.init(vec![1, 2], 1).unwrap();
    let id = m.propose(1, 9, String::from("f"), vec![vec![4]]).unwrap();
    m.approve(1, id).unwrap();
    m.execute(2, id).unwrap();
    let other = m.propose(2, 9, String::from("g"), vec![]).unwrap();
    m.approve(2, other).unwrap();
    m.execute(1, other).unwrap();
    assert_eq!(m.approve(2, id), Err(Error::AlreadyExecuted));
    assert_eq!(m.execute(2, id).unwrap_err(), Error::AlreadyExecuted);
    assert_eq!(m.execute(7, id).unwrap_err(), Error::Unauthorized);
    let p = m.get_proposal(id).unwrap();
    assert!(p.executed);
    assert_eq!((p.function.as_str(), p.args.clone(), p.approvals), ("f", vec![vec![4]], 1));
}
