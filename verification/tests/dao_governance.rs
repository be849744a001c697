use crowdpass::dao_governance::{
    ContractCall, DaoConfig, DaoError, DaoGovernance, ParameterChange, ProposalType,
};
use crowdpass::AccountId;

const ADMIN: AccountId = 1000;
const ALICE: AccountId = 1;
const BOB: AccountId = 2;
const CAROL: AccountId = 3;

fn config() -> DaoConfig {
    DaoConfig {
        voting_token: 77,
        voting_period: 100,
        execution_delay: 0,
        quorum_percentage: 50,
        proposal_threshold: 10,
        max_members: 10,
    }
}

fn dao() -> DaoGovernance {
    let mut d = DaoGovernance::new();
    d.initialize(config()).unwrap();
    d.add_member(ADMIN, ADMIN, ALICE).unwrap();
    d.add_member(ADMIN, ADMIN, BOB).unwrap();
    d
}

fn general(d: &mut DaoGovernance, proposer: AccountId, delay: u64, now: u64) -> Result<u32, DaoError> {
    d.create_proposal(
        proposer,
        100,
        ProposalType::General,
        b"t".to_vec(),
        b"d".to_vec(),
        vec![],
        vec![],
        vec![],
        vec![],
        delay,
        now,
    )
}

#[test]
fn initialize_rules() {
    let mut d = DaoGovernance::new();
    let mut bad = config();
    bad.quorum_percentage = 101;
    assert_eq!(d.initialize(bad), Err(DaoError::InvalidParameters));
    d.initialize(config()).unwrap();
    assert_eq!(d.initialize(config()), Err(DaoError::AlreadyInitialized));
    assert_eq!(d.get_config_view(), config());
    assert!(d.get_members().is_empty());
}

#[test]
fn membership() {
    let mut d = dao();
    assert_eq!(d.get_members(), vec![ALICE, BOB]);
    assert!(d.is_member_view(ALICE));
    assert_eq!(d.add_member(ALICE, ADMIN, CAROL), Err(DaoError::Unauthorized));
    assert_eq!(d.add_member(ADMIN, ADMIN, ALICE), Err(DaoError::MemberAlreadyExists));
    d.remove_member(ADMIN, ADMIN, ALICE).unwrap();
    assert!(!d.is_member_view(ALICE));
    assert_eq!(d.get_members(), vec![BOB]);
    assert_eq!(d.remove_member(ADMIN, ADMIN, ALICE), Err(DaoError::MemberNotFound));
    assert_eq!(d.remove_member(BOB, ADMIN, BOB), Err(DaoError::Unauthorized));
}

#[test]
fn proposal_creation() {
    let mut d = dao();
    assert_eq!(general(&mut d, CAROL, 0, 10), Err(DaoError::Unauthorized));
    let low = d.create_proposal(
        ALICE, 9, ProposalType::General, b"t".to_vec(), b"d".to_vec(),
        vec![], vec![], vec![], vec![], 0, 10,
    );
    assert_eq!(low, Err(DaoError::InsufficientVotingPower));
    for t in [ProposalType::ContractCall, ProposalType::ParameterChange, ProposalType::MemberManagement] {
        let r = d.create_proposal(
            ALICE, 100, t, b"t".to_vec(), b"d".to_vec(), vec![], vec![], vec![], vec![], 0, 10,
        );
        assert_eq!(r, Err(DaoError::InvalidParameters));
    }
    assert_eq!(general(&mut d, ALICE, 5, 10), Ok(1));
    assert_eq!(general(&mut d, BOB, 0, 20), Ok(2));
    assert_eq!(d.proposal_count(), 2);
    let p = d.get_proposal(1).unwrap();
    assert_eq!(p.proposer, ALICE);
    assert_eq!((p.title.as_slice(), p.description.as_slice()), (&b"t"[..], &b"d"[..]));
    assert_eq!((p.start_time, p.end_time, p.execution_time), (10, 110, 115));
    assert!(!p.executed && !p.cancelled);
    assert!(d.get_proposal(3).is_none());
}

#[test]
fn voting_rules() {
    let mut d = dao();
    let id = general(&mut d, ALICE, 0, 10).unwrap();
    assert_eq!(d.vote(CAROL, id, true, 5, 20), Err(DaoError::Unauthorized));
    assert_eq!(d.vote(ALICE, 9, true, 5, 20), Err(DaoError::ProposalNotFound));
    assert_eq!(d.vote(ALICE, id, true, 5, 9), Err(DaoError::VotingEnded));
    assert_eq!(d.vote(ALICE, id, true, 5, 111), Err(DaoError::VotingEnded));
    assert_eq!(d.vote(ALICE, id, true, 0, 20), Err(DaoError::InsufficientVotingPower));
    d.vote(ALICE, id, true, 5, 20).unwrap();
    assert_eq!(d.vote(ALICE, id, false, 5, 21), Err(DaoError::AlreadyVoted));
    d.vote(BOB, id, false, 3, 110).unwrap();
    let votes = d.get_proposal_votes(id);
    assert_eq!(votes.len(), 2);
    assert_eq!((votes[0].voter, votes[0].in_favor, votes[0].voting_power, votes[0].timestamp), (ALICE, true, 5, 20));
    assert_eq!((votes[1].voter, votes[1].in_favor, votes[1].voting_power), (BOB, false, 3));
    assert!(d.get_proposal_votes(42).is_empty());
}

#[test]
fn execution_of_general_proposal() {
    let mut d = dao();
    let id = general(&mut d, ALICE, 10, 0).unwrap();
    d.vote(ALICE, id, true, 60, 1).unwrap();
    d.vote(BOB, id, false, 20, 2).unwrap();
    assert_eq!(d.execute_proposal(id, 100, 100).unwrap_err(), DaoError::VotingEnded);
    assert_eq!(d.execute_proposal(id, 100, 105).unwrap_err(), DaoError::ExecutionTimelockActive);
    // 80% of a supply of 100 voted, 60 for and 20 against.
    let ex = d.execute_proposal(id, 100, 110).unwrap();
    assert_eq!((ex.votes_for, ex.votes_against), (60, 20));
    assert!(ex.calls.is_empty());
    assert!(d.get_proposal(id).unwrap().executed);
    assert_eq!(d.execute_proposal(id, 100, 111).unwrap_err(), DaoError::ProposalFailed);
    assert_eq!(d.cancel_proposal(ALICE, ADMIN, id), Err(DaoError::ProposalFailed));
    assert_eq!(d.vote(ALICE, id, true, 5, 50), Err(DaoError::ProposalNotActive));
}

#[test]
fn quorum_and_majority() {
    let mut d = dao();
    let id = general(&mut d, ALICE, 0, 0).unwrap();
    d.vote(ALICE, id, true, 40, 1).unwrap();
    // 40 of 100 is below a 50% quorum.
    assert_eq!(d.execute_proposal(id, 100, 101).unwrap_err(), DaoError::QuorumNotReached);
    d.vote(BOB, id, false, 40, 2).unwrap();
    // Quorum is reached but the vote is tied.
    assert_eq!(d.execute_proposal(id, 100, 101).unwrap_err(), DaoError::QuorumNotReached);
    assert!(!d.get_proposal(id).unwrap().executed);
    assert_eq!(d.execute_proposal(7, 100, 101).unwrap_err(), DaoError::ProposalNotFound);
}

#[test]
fn contract_call_proposal_hands_out_calls() {
    let mut d = dao();
    let call = ContractCall { contract_address: 500, function_name: String::from("pay"), args: vec![vec![1], vec![2, 3]] };
    let id = d
        .create_proposal(ALICE, 100, ProposalType::ContractCall, b"t".to_vec(), b"d".to_vec(),
            vec![call], vec![], vec![], vec![], 0, 0)
        .unwrap();
    d.vote(ALICE, id, true, 100, 1).unwrap();
    let ex = d.execute_proposal(id, 100, 101).unwrap();
    assert_eq!(ex.calls.len(), 1);
    assert_eq!(ex.calls[0].contract_address, 500);
    assert_eq!(ex.calls[0].function_name, "pay");
    assert_eq!(ex.calls[0].args, vec![vec![1], vec![2, 3]]);
    // The proposal keeps its calls.
    assert_eq!(d.get_proposal(id).unwrap().contract_calls.len(), 1);
}

#[test]
fn parameter_change_proposal_cannot_execute() {
    let mut d = dao();
    let change = ParameterChange { name: String::from("quorum"), value: vec![60] };
    let id = d
        .create_proposal(ALICE, 100, ProposalType::ParameterChange, b"t".to_vec(), b"d".to_vec(),
            vec![], vec![change], vec![], vec![], 0, 0)
        .unwrap();
    d.vote(ALICE, id, true, 100, 1).unwrap();
    assert_eq!(d.execute_proposal(id, 100, 101).unwrap_err(), DaoError::InvalidParameters);
    assert!(!d.get_proposal(id).unwrap().executed);
}

#[test]
fn member_management_proposal_changes_members() {
    let mut d = dao();
    let id = d
        .create_proposal(ALICE, 100, ProposalType::MemberManagement, b"t".to_vec(), b"d".to_vec(),
            vec![], vec![], vec![CAROL, ALICE, 4], vec![BOB, 99], 0, 0)
        .unwrap();
    d.vote(ALICE, id, true, 100, 1).unwrap();
    d.execute_proposal(id, 100, 101).unwrap();
    assert_eq!(d.get_members(), vec![ALICE, CAROL, 4]);
}

#[test]
fn cancellation() {
    let mut d = dao();
    let id = general(&mut d, ALICE, 0, 0).unwrap();
    assert_eq!(d.cancel_proposal(BOB, ADMIN, id), Err(DaoError::Unauthorized));
    assert_eq!(d.cancel_proposal(BOB, ADMIN, 5), Err(DaoError::ProposalNotFound));
    d.cancel_proposal(ADMIN, ADMIN, id).unwrap();
    assert!(d.get_proposal(id).unwrap().cancelled);
    assert_eq!(d.vote(BOB, id, true, 5, 1), Err(DaoError::ProposalNotActive));
    assert_eq!(d.execute_proposal(id, 100, 200).unwrap_err(), DaoError::ProposalNotActive);
    let id2 = general(&mut d, BOB, 0, 0).unwrap();
    d.cancel_proposal(BOB, ADMIN, id2).unwrap();
}

#[test]
fn dao_error_codes() {
    assert_eq!(DaoError::NotInitialized.code(), 1);
    assert_eq!(DaoError::QuorumNotReached.code(), 8);
    assert_eq!(DaoError::InvalidProposalType.code(), 12);
    assert_eq!(DaoError::MemberAlreadyExists.code(), 15);
}

#[test]
fn dao_executed_proposal_stays_executed() {
    let mut d = dao();
    let id = general(&mut d, ALICE, 0, 0).unwrap();
    d.vote(ALICE, id, true, 100, 1).unwrap();
    d.execute_proposal(id, 100, 101).unwrap();
    let other = general(&mut d, BOB, 0, 102).unwrap();
    d.add_member(ADMIN, ADMIN, CAROL).unwrap();
    d.vote(CAROL, other, true, 100, 103).unwrap();
    d.cancel_proposal(BOB, ADMIN, other).unwrap();
    assert_eq!(d.initialize(config()), Err(DaoError::AlreadyInitialized));
    let p = d.get_proposal(id).unwrap();
    assert!(p.executed && !p.cancelled);
    assert_eq!(d.execute_proposal(id, 100, 500).unwrap_err(), DaoError::ProposalFailed);
    assert_eq!(d.cancel_proposal(ADMIN, ADMIN, id), Err(DaoError::ProposalFailed));
    assert!(d.vote(CAROL, id, true, 5, 50).is_err());
}
