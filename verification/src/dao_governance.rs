//! Governance for a DAO: members, proposals of several kinds, voting weighted
//! by token balance, quorum, and execution after a timelock.
//!
//! The contract's storage is held in [`DaoGovernance`]; every entry point is a
//! method on it.  Voting power and total supply are token balances that the
//! host reads; the caller passes them in.  Contract calls that a passed
//! proposal asks for are returned for the host to invoke.
use vstd::prelude::*;

use crate::{bytes_view, copy_byte_strings, copy_ids, no_duplicates, AccountId};

verus! {

#[derive(Clone, Copy, Debug, PartialEq, Eq, Structural)]
pub enum DaoError {
    NotInitialized,
    AlreadyInitialized,
    Unauthorized,
    ProposalNotFound,
    ProposalNotActive,
    AlreadyVoted,
    VotingEnded,
    QuorumNotReached,
    ProposalFailed,
    ExecutionTimelockActive,
    InsufficientVotingPower,
    InvalidProposalType,
    InvalidParameters,
    MemberNotFound,
    MemberAlreadyExists,
}

impl DaoError {
    /// The number by which the contract reports this error.
    pub fn code(&self) -> (c: u32)
        ensures
            c == self.spec_code(),
    {
        match self {
            DaoError::NotInitialized => 1,
            DaoError::AlreadyInitialized => 2,
            DaoError::Unauthorized => 3,
            DaoError::ProposalNotFound => 4,
            DaoError::ProposalNotActive => 5,
            DaoError::AlreadyVoted => 6,
            DaoError::VotingEnded => 7,
            DaoError::QuorumNotReached => 8,
            DaoError::ProposalFailed => 9,
            DaoError::ExecutionTimelockActive => 10,
            DaoError::InsufficientVotingPower => 11,
            DaoError::InvalidProposalType => 12,
            DaoError::InvalidParameters => 13,
            DaoError::MemberNotFound => 14,
            DaoError::MemberAlreadyExists => 15,
        }
    }

    pub open spec fn spec_code(&self) -> u32 {
        match self {
            DaoError::NotInitialized => 1,
            DaoError::AlreadyInitialized => 2,
            DaoError::Unauthorized => 3,
            DaoError::ProposalNotFound => 4,
            DaoError::ProposalNotActive => 5,
            DaoError::AlreadyVoted => 6,
            DaoError::VotingEnded => 7,
            DaoError::QuorumNotReached => 8,
            DaoError::ProposalFailed => 9,
            DaoError::ExecutionTimelockActive => 10,
            DaoError::InsufficientVotingPower => 11,
            DaoError::InvalidProposalType => 12,
            DaoError::InvalidParameters => 13,
            DaoError::MemberNotFound => 14,
            DaoError::MemberAlreadyExists => 15,
        }
    }
}

#[derive(Clone, Copy, Debug, PartialEq, Eq, Structural)]
pub enum ProposalType {
    /// General proposal with no automatic execution
    General,
    /// Execute contract calls
    ContractCall,
    /// Change DAO parameters
    ParameterChange,
    /// Add or remove members
    MemberManagement,
}

/// A call of `function_name` on `contract_address`.  Each argument is a byte
/// string: the argument's value in the encoding that the host reads back
/// when it makes the call, so that an argument keeps its meaning however
/// long after the proposal the call is made.
#[derive(Debug)]
pub struct ContractCall {
    pub contract_address: AccountId,
    pub function_name: String,
    pub args: Vec<Vec<u8>>,
}

pub struct ContractCallView {
    pub contract_address: AccountId,
    pub function_name: Seq<char>,
    pub args: Seq<Seq<u8>>,
}

impl View for ContractCall {
    type V = ContractCallView;

    open spec fn view(&self) -> ContractCallView {
        ContractCallView {
            contract_address: self.contract_address,
            function_name: self.function_name@,
            args: bytes_view(self.args@),
        }
    }
}

pub open spec fn calls_view(calls: Seq<ContractCall>) -> Seq<ContractCallView> {
    calls.map_values(|c: ContractCall| c@)
}

impl ContractCall {
    /// A copy of this call.
    pub fn duplicate(&self) -> (c: ContractCall)
        ensures
            c@ == self@,
    {
        ContractCall {
            contract_address: self.contract_address,
            function_name: self.function_name.clone(),
            args: copy_byte_strings(&self.args),
        }
    }
}

/// A change of a named DAO parameter; the value is a byte string, in the
/// encoding that the host reads back.
#[derive(Debug)]
pub struct ParameterChange {
    pub name: String,
    pub value: Vec<u8>,
}

pub struct ParameterChangeView {
    pub name: Seq<char>,
    pub value: Seq<u8>,
}

impl View for ParameterChange {
    type V = ParameterChangeView;

    open spec fn view(&self) -> ParameterChangeView {
        ParameterChangeView { name: self.name@, value: self.value@ }
    }
}

/// A proposal; its title and description are strings held as their bytes.
#[derive(Debug)]
pub struct Proposal {
    pub id: u32,
    pub proposer: AccountId,
    pub proposal_type: ProposalType,
    pub title: Vec<u8>,
    pub description: Vec<u8>,
    pub contract_calls: Vec<ContractCall>,
    pub parameter_changes: Vec<ParameterChange>,
    pub new_members: Vec<AccountId>,
    pub remove_members: Vec<AccountId>,
    pub start_time: u64,
    pub end_time: u64,
    /// 0 means immediate execution
    pub execution_time: u64,
    pub executed: bool,
    pub cancelled: bool,
}

pub struct ProposalView {
    pub id: u32,
    pub proposer: AccountId,
    pub proposal_type: ProposalType,
    pub title: Seq<u8>,
    pub description: Seq<u8>,
    pub contract_calls: Seq<ContractCallView>,
    pub parameter_changes: Seq<ParameterChangeView>,
    pub new_members: Seq<AccountId>,
    pub remove_members: Seq<AccountId>,
    pub start_time: u64,
    pub end_time: u64,
    pub execution_time: u64,
    pub executed: bool,
    pub cancelled: bool,
}

impl View for Proposal {
    type V = ProposalView;

    open spec fn view(&self) -> ProposalView {
        ProposalView {
            id: self.id,
            proposer: self.proposer,
            proposal_type: self.proposal_type,
            title: self.title@,
            description: self.description@,
            contract_calls: calls_view(self.contract_calls@),
            parameter_changes: self.parameter_changes@.map_values(|c: ParameterChange| c@),
            new_members: self.new_members@,
            remove_members: self.remove_members@,
            start_time: self.start_time,
            end_time: self.end_time,
            execution_time: self.execution_time,
            executed: self.executed,
            cancelled: self.cancelled,
        }
    }
}

#[derive(Clone, Copy, Debug, PartialEq, Eq, Structural)]
pub struct Vote {
    pub voter: AccountId,
    pub proposal_id: u32,
    pub in_favor: bool,
    pub voting_power: u128,
    pub timestamp: u64,
}

#[derive(Clone, Copy, Debug, PartialEq, Eq, Structural)]
pub struct DaoConfig {
    pub voting_token: AccountId,
    /// seconds
    pub voting_period: u64,
    /// seconds
    pub execution_delay: u64,
    /// percentage (0-100)
    pub quorum_percentage: u32,
    /// minimum voting power to create proposal
    pub proposal_threshold: u128,
    pub max_members: u32,
}

/// What the host carries out once a proposal executes: the contract calls,
/// in order, and the vote tally it publishes.
#[derive(Debug)]
pub struct Execution {
    pub calls: Vec<ContractCall>,
    pub votes_for: u128,
    pub votes_against: u128,
}

pub struct ExecutionView {
    pub calls: Seq<ContractCallView>,
    pub votes_for: u128,
    pub votes_against: u128,
}

impl View for Execution {
    type V = ExecutionView;

    open spec fn view(&self) -> ExecutionView {
        ExecutionView {
            calls: calls_view(self.calls@),
            votes_for: self.votes_for,
            votes_against: self.votes_against,
        }
    }
}

/// The contract's storage as mathematical values.  Proposal `id` is stored
/// at position `id - 1` of `proposals`, and its votes at the same position
/// of `votes`.
pub struct DaoState {
    pub config: Option<DaoConfig>,
    pub proposal_count: u32,
    pub members: Seq<AccountId>,
    pub proposals: Seq<ProposalView>,
    pub votes: Seq<Seq<Vote>>,
}

/// The DAO governance contract and its storage.  The fields are the storage
/// entries, public so that a host can load and save them; the methods require
/// and keep [`DaoGovernance::wf`].
pub struct DaoGovernance {
    pub config: Option<DaoConfig>,
    pub proposal_count: u32,
    pub members: Vec<AccountId>,
    pub proposals: Vec<Proposal>,
    pub votes: Vec<Vec<Vote>>,
}

// ---------------------------------------------------------------------------
// Membership lists
// ---------------------------------------------------------------------------

/// `i` is the first position of `x` in `m`.
pub open spec fn is_first_index(m: Seq<AccountId>, x: AccountId, i: int) -> bool {
    &&& 0 <= i < m.len()
    &&& m[i] == x
    &&& forall|j: int| 0 <= j < i ==> m[j] != x
}

/// `m` with `x` appended unless already present.
pub open spec fn with_member(m: Seq<AccountId>, x: AccountId) -> Seq<AccountId> {
    if m.contains(x) {
        m
    } else {
        m.push(x)
    }
}

/// `m` without the first occurrence of `x`, if any.
pub open spec fn without_member(m: Seq<AccountId>, x: AccountId) -> Seq<AccountId> {
    if m.contains(x) {
        m.remove(choose|i: int| is_first_index(m, x, i))
    } else {
        m
    }
}

/// Adding each of `xs` in order.
pub open spec fn with_members(m: Seq<AccountId>, xs: Seq<AccountId>) -> Seq<AccountId>
    decreases xs.len(),
{
    if xs.len() == 0 {
        m
    } else {
        with_member(with_members(m, xs.drop_last()), xs.last())
    }
}

/// Removing each of `xs` in order.
pub open spec fn without_members(m: Seq<AccountId>, xs: Seq<AccountId>) -> Seq<AccountId>
    decreases xs.len(),
{
    if xs.len() == 0 {
        m
    } else {
        without_member(without_members(m, xs.drop_last()), xs.last())
    }
}

/// The first position of `x` in `v`, if any.
fn find_member(v: &Vec<AccountId>, x: AccountId) -> (res: Option<usize>)
    ensures
        match res {
            Some(i) => is_first_index(v@, x, i as int),
            None => !v@.contains(x),
        },
{
    let mut i: usize = 0;
    while i < v.len()
        invariant
            i <= v.len(),
            forall|j: int| 0 <= j < i ==> v@[j] != x,
        decreases v.len() - i,
    {
        if v[i] == x {
            return Some(i);
        }
        i = i + 1;
    }
    None
}

proof fn lemma_first_index_unique(m: Seq<AccountId>, x: AccountId, i: int)
    requires
        is_first_index(m, x, i),
    ensures
        m.contains(x),
        (choose|k: int| is_first_index(m, x, k)) == i,
{
    assert(m[i] == x);
    let k = choose|k: int| is_first_index(m, x, k);
    assert(is_first_index(m, x, k));
    if k < i {
        assert(m[k] != x);
    } else if k > i {
        assert(m[i] != x);
    }
}

proof fn lemma_with_member_no_duplicates(m: Seq<AccountId>, x: AccountId)
    requires
        no_duplicates(m),
    ensures
        no_duplicates(with_member(m, x)),
{
}

proof fn lemma_without_member_no_duplicates(m: Seq<AccountId>, x: AccountId)
    requires
        no_duplicates(m),
    ensures
        no_duplicates(without_member(m, x)),
        !without_member(m, x).contains(x),
{
    if m.contains(x) {
        let i = choose|i: int| is_first_index(m, x, i);
        let k = choose|k: int| 0 <= k < m.len() && m[k] == x;
        assert(is_first_index(m, x, i) || exists|i: int| is_first_index(m, x, i)) by {
            lemma_exists_first_index(m, x, k);
        }
        assert(is_first_index(m, x, i));
        let r = m.remove(i);
        assert forall|a: int, b: int| 0 <= a < r.len() && 0 <= b < r.len() && a != b implies r[a]
            != r[b] by {
            let a2 = if a < i {
                a
            } else {
                a + 1
            };
            let b2 = if b < i {
                b
            } else {
                b + 1
            };
            assert(r[a] == m[a2] && r[b] == m[b2]);
        }
        assert forall|a: int| 0 <= a < r.len() implies r[a] != x by {
            let a2 = if a < i {
                a
            } else {
                a + 1
            };
            assert(r[a] == m[a2]);
            assert(a2 != i);
        }
    }
}

proof fn lemma_exists_first_index(m: Seq<AccountId>, x: AccountId, k: int)
    requires
        0 <= k < m.len(),
        m[k] == x,
    ensures
        exists|i: int| is_first_index(m, x, i),
    decreases k,
{
    if exists|j: int| 0 <= j < k && m[j] == x {
        let j = choose|j: int| 0 <= j < k && m[j] == x;
        lemma_exists_first_index(m, x, j);
    } else {
        assert(is_first_index(m, x, k));
    }
}

proof fn lemma_with_members_no_duplicates(m: Seq<AccountId>, xs: Seq<AccountId>)
    requires
        no_duplicates(m),
    ensures
        no_duplicates(with_members(m, xs)),
    decreases xs.len(),
{
    if xs.len() > 0 {
        lemma_with_members_no_duplicates(m, xs.drop_last());
        lemma_with_member_no_duplicates(with_members(m, xs.drop_last()), xs.last());
    }
}

proof fn lemma_without_members_no_duplicates(m: Seq<AccountId>, xs: Seq<AccountId>)
    requires
        no_duplicates(m),
    ensures
        no_duplicates(without_members(m, xs)),
    decreases xs.len(),
{
    if xs.len() > 0 {
        lemma_without_members_no_duplicates(m, xs.drop_last());
        lemma_without_member_no_duplicates(without_members(m, xs.drop_last()), xs.last());
    }
}

/// Adding members keeps those present and brings in each added one.
proof fn lemma_with_members_contains(m: Seq<AccountId>, xs: Seq<AccountId>, a: AccountId)
    ensures
        with_members(m, xs).contains(a) <==> (m.contains(a) || xs.contains(a)),
    decreases xs.len(),
{
    if xs.len() > 0 {
        let init = xs.drop_last();
        let x = xs.last();
        let prev = with_members(m, init);
        lemma_with_members_contains(m, init, a);
        if !prev.contains(x) {
            let next = prev.push(x);
            if prev.contains(a) {
                let i = choose|i: int| 0 <= i < prev.len() && prev[i] == a;
                assert(next[i] == a);
            }
            if a == x {
                assert(next[prev.len() as int] == a);
            }
            if next.contains(a) {
                let i = choose|i: int| 0 <= i < next.len() && next[i] == a;
                if i < prev.len() {
                    assert(prev[i] == a);
                }
            }
        }
        if xs.contains(a) {
            let i = choose|i: int| 0 <= i < xs.len() && xs[i] == a;
            if i < xs.len() - 1 {
                assert(init[i] == a);
            }
        }
        if init.contains(a) {
            let i = choose|i: int| 0 <= i < init.len() && init[i] == a;
            assert(xs[i] == a);
        }
        if x == a {
            assert(xs[xs.len() - 1] == a);
        }
    }
}

/// Removing a member from a list without repeats keeps everyone else.
proof fn lemma_without_member_contains(m: Seq<AccountId>, x: AccountId, a: AccountId)
    requires
        no_duplicates(m),
    ensures
        without_member(m, x).contains(a) <==> (m.contains(a) && a != x),
{
    lemma_without_member_no_duplicates(m, x);
    if m.contains(x) {
        let k = choose|k: int| 0 <= k < m.len() && m[k] == x;
        lemma_exists_first_index(m, x, k);
        let i = choose|i: int| is_first_index(m, x, i);
        let r = m.remove(i);
        assert(without_member(m, x) == r);
        if r.contains(a) {
            let j = choose|j: int| 0 <= j < r.len() && r[j] == a;
            if j < i {
                assert(m[j] == a);
            } else {
                assert(m[j + 1] == a);
            }
        }
        if m.contains(a) && a != x {
            let j = choose|j: int| 0 <= j < m.len() && m[j] == a;
            if j < i {
                assert(r[j] == a);
            } else {
                assert(j != i);
                assert(r[j - 1] == a);
            }
        }
    }
}

/// Removing members from a list without repeats takes out exactly the
/// removed ones.
proof fn lemma_without_members_contains(m: Seq<AccountId>, xs: Seq<AccountId>, a: AccountId)
    requires
        no_duplicates(m),
    ensures
        without_members(m, xs).contains(a) <==> (m.contains(a) && !xs.contains(a)),
    decreases xs.len(),
{
    if xs.len() > 0 {
        let init = xs.drop_last();
        let x = xs.last();
        lemma_without_members_contains(m, init, a);
        lemma_without_members_no_duplicates(m, init);
        lemma_without_member_contains(without_members(m, init), x, a);
        if xs.contains(a) {
            let i = choose|i: int| 0 <= i < xs.len() && xs[i] == a;
            if i < xs.len() - 1 {
                assert(init[i] == a);
            }
        }
        if init.contains(a) {
            let i = choose|i: int| 0 <= i < init.len() && init[i] == a;
            assert(xs[i] == a);
        }
        if x == a {
            assert(xs[xs.len() - 1] == a);
        }
    }
}

// ---------------------------------------------------------------------------
// Vote tallies
// ---------------------------------------------------------------------------

/// Voting power cast in favour.
pub open spec fn power_for(vs: Seq<Vote>) -> int
    decreases vs.len(),
{
    if vs.len() == 0 {
        0
    } else {
        power_for(vs.drop_last()) + if vs.last().in_favor {
            vs.last().voting_power as int
        } else {
            0
        }
    }
}

/// Voting power cast against.
pub open spec fn power_against(vs: Seq<Vote>) -> int
    decreases vs.len(),
{
    if vs.len() == 0 {
        0
    } else {
        power_against(vs.drop_last()) + if vs.last().in_favor {
            0
        } else {
            vs.last().voting_power as int
        }
    }
}

/// All voting power cast.
pub open spec fn power_cast(vs: Seq<Vote>) -> int
    decreases vs.len(),
{
    if vs.len() == 0 {
        0
    } else {
        power_cast(vs.drop_last()) + vs.last().voting_power
    }
}

/// Whether `voter` has a vote among `vs`.
pub open spec fn has_voted(vs: Seq<Vote>, voter: AccountId) -> bool {
    exists|i: int| 0 <= i < vs.len() && #[trigger] vs[i].voter == voter
}

/// No voter occurs twice among `vs`.
pub open spec fn one_vote_each(vs: Seq<Vote>) -> bool {
    forall|i: int, j: int| 0 <= i < vs.len() && 0 <= j < vs.len() && i != j ==> vs[i].voter != vs[j].voter
}

/// Power in favour and power against make up all power cast, and each part
/// is at most the whole.
pub proof fn lemma_tally_splits(vs: Seq<Vote>)
    ensures
        power_for(vs) + power_against(vs) == power_cast(vs),
        0 <= power_for(vs) <= power_cast(vs),
        0 <= power_against(vs) <= power_cast(vs),
    decreases vs.len(),
{
    if vs.len() > 0 {
        lemma_tally_splits(vs.drop_last());
    }
}

proof fn lemma_power_cast_prefix(vs: Seq<Vote>, i: int, j: int)
    requires
        0 <= i <= j <= vs.len(),
    ensures
        power_cast(vs.take(i)) <= power_cast(vs.take(j)),
    decreases j,
{
    if j > i {
        lemma_power_cast_prefix(vs, i, j - 1);
        assert(vs.take(j).drop_last() =~= vs.take(j - 1));
    }
}

/// Sums the votes: (in favour, against, all).
fn count_votes(votes: &Vec<Vote>) -> (res: (u128, u128, u128))
    requires
        power_cast(votes@) <= u128::MAX,
    ensures
        res.0 == power_for(votes@),
        res.1 == power_against(votes@),
        res.2 == power_cast(votes@),
{
    let mut votes_for: u128 = 0;
    let mut votes_against: u128 = 0;
    let mut total_votes: u128 = 0;
    let n = votes.len();
    let mut i: usize = 0;
    assert(votes@.take(0) =~= Seq::<Vote>::empty());
    while i < n
        invariant
            n == votes@.len(),
            i <= n,
            power_cast(votes@) <= u128::MAX,
            votes_for == power_for(votes@.take(i as int)),
            votes_against == power_against(votes@.take(i as int)),
            total_votes == power_cast(votes@.take(i as int)),
        decreases n - i,
    {
        let v = votes[i];
        proof {
            assert(votes@.take(i + 1).drop_last() =~= votes@.take(i as int));
            lemma_power_cast_prefix(votes@, i + 1, n as int);
            assert(votes@.take(n as int) =~= votes@);
            lemma_tally_splits(votes@.take(i + 1));
        }
        total_votes = total_votes + v.voting_power;
        if v.in_favor {
            votes_for = votes_for + v.voting_power;
        } else {
            votes_against = votes_against + v.voting_power;
        }
        i = i + 1;
    }
    assert(votes@.take(n as int) =~= votes@);
    (votes_for, votes_against, total_votes)
}

/// Whether the cast power reaches the quorum share of the total voting power.
pub open spec fn quorum_reached(cast: int, total_voting_power: int, quorum_percentage: u32) -> bool {
    (cast * 100) / total_voting_power >= quorum_percentage
}

// ---------------------------------------------------------------------------
// The contract as a state machine on DaoState
// ---------------------------------------------------------------------------

/// The storage before initialization.
pub open spec fn uninitialized() -> DaoState {
    DaoState {
        config: None,
        proposal_count: 0,
        members: Seq::empty(),
        proposals: Seq::empty(),
        votes: Seq::empty(),
    }
}

/// What every reachable storage satisfies.
pub open spec fn state_inv(s: DaoState) -> bool {
    &&& s.proposals.len() == s.proposal_count
    &&& s.votes.len() == s.proposal_count
    &&& forall|i: int| 0 <= i < s.proposals.len() ==> #[trigger] s.proposals[i].id == i + 1
    &&& no_duplicates(s.members)
    &&& (s.members.len() > 0 || s.proposal_count > 0) ==> s.config is Some
    &&& forall|i: int| 0 <= i < s.votes.len() ==> one_vote_each(#[trigger] s.votes[i])
    &&& forall|i: int| 0 <= i < s.proposals.len() ==> carries_content(#[trigger] s.proposals[i])
}

/// Whether proposal `p` carries what its type needs (as checked when it was
/// created).
pub open spec fn carries_content(p: ProposalView) -> bool {
    proposal_content_valid(
        p.proposal_type,
        p.contract_calls.len() as int,
        p.parameter_changes.len() as int,
        p.new_members.len() as int,
        p.remove_members.len() as int,
    )
}

pub open spec fn is_member(s: DaoState, a: AccountId) -> bool {
    s.members.contains(a)
}

/// Whether proposal `id` exists.
pub open spec fn proposal_exists(s: DaoState, id: u32) -> bool {
    1 <= id <= s.proposals.len()
}

pub open spec fn proposal(s: DaoState, id: u32) -> ProposalView {
    s.proposals[id - 1]
}

pub open spec fn proposal_votes(s: DaoState, id: u32) -> Seq<Vote> {
    s.votes[id - 1]
}

/// Recording the configuration; the quorum must be a percentage.
pub open spec fn initialize_step(s: DaoState, config: DaoConfig) -> (DaoState, Result<(), DaoError>) {
    if s.config is Some {
        (s, Err(DaoError::AlreadyInitialized))
    } else if config.quorum_percentage > 100 {
        (s, Err(DaoError::InvalidParameters))
    } else {
        (
            DaoState {
                config: Some(config),
                proposal_count: 0,
                members: Seq::empty(),
                proposals: Seq::empty(),
                votes: Seq::empty(),
            },
            Ok(()),
        )
    }
}

/// Adding a member (administrator only).
pub open spec fn add_member_step(
    s: DaoState,
    caller: AccountId,
    admin: AccountId,
    member: AccountId,
) -> (DaoState, Result<(), DaoError>) {
    if caller != admin {
        (s, Err(DaoError::Unauthorized))
    } else if s.members.contains(member) {
        (s, Err(DaoError::MemberAlreadyExists))
    } else {
        (DaoState { members: s.members.push(member), ..s }, Ok(()))
    }
}

/// Removing a member (administrator only).
pub open spec fn remove_member_step(
    s: DaoState,
    caller: AccountId,
    admin: AccountId,
    member: AccountId,
) -> (DaoState, Result<(), DaoError>) {
    if caller != admin {
        (s, Err(DaoError::Unauthorized))
    } else if !s.members.contains(member) {
        (s, Err(DaoError::MemberNotFound))
    } else {
        (DaoState { members: without_member(s.members, member), ..s }, Ok(()))
    }
}

/// Whether a proposal of type `t` carries what its type needs.
pub open spec fn proposal_content_valid(
    t: ProposalType,
    calls: int,
    changes: int,
    new_members: int,
    remove_members: int,
) -> bool {
    match t {
        ProposalType::ContractCall => calls > 0,
        ProposalType::ParameterChange => changes > 0,
        ProposalType::MemberManagement => new_members > 0 || remove_members > 0,
        ProposalType::General => true,
    }
}

/// The error that stops a proposal from being created, if any.
pub open spec fn create_proposal_error(
    s: DaoState,
    proposer: AccountId,
    proposer_voting_power: u128,
    t: ProposalType,
    calls: int,
    changes: int,
    new_members: int,
    remove_members: int,
) -> Option<DaoError> {
    if !is_member(s, proposer) {
        Some(DaoError::Unauthorized)
    } else if proposer_voting_power < s.config.unwrap().proposal_threshold {
        Some(DaoError::InsufficientVotingPower)
    } else if !proposal_content_valid(t, calls, changes, new_members, remove_members) {
        Some(DaoError::InvalidParameters)
    } else {
        None
    }
}

/// Creating proposal number `proposal_count + 1`: voting runs from `now` for
/// the configured period, and execution may follow `execution_delay` seconds
/// after voting ends.
pub open spec fn create_proposal_step(
    s: DaoState,
    proposer: AccountId,
    proposer_voting_power: u128,
    proposal_type: ProposalType,
    title: Seq<u8>,
    description: Seq<u8>,
    contract_calls: Seq<ContractCallView>,
    parameter_changes: Seq<ParameterChangeView>,
    new_members: Seq<AccountId>,
    remove_members: Seq<AccountId>,
    execution_delay: u64,
    now: u64,
) -> (DaoState, Result<u32, DaoError>) {
    match create_proposal_error(
        s,
        proposer,
        proposer_voting_power,
        proposal_type,
        contract_calls.len() as int,
        parameter_changes.len() as int,
        new_members.len() as int,
        remove_members.len() as int,
    ) {
        Some(e) => (s, Err(e)),
        None => {
            let id = (s.proposal_count + 1) as u32;
            let period = s.config.unwrap().voting_period;
            let p = ProposalView {
                id,
                proposer,
                proposal_type,
                title,
                description,
                contract_calls,
                parameter_changes,
                new_members,
                remove_members,
                start_time: now,
                end_time: (now + period) as u64,
                execution_time: (now + period + execution_delay) as u64,
                executed: false,
                cancelled: false,
            };
            (
                DaoState {
                    proposal_count: id,
                    proposals: s.proposals.push(p),
                    votes: s.votes.push(Seq::empty()),
                    ..s
                },
                Ok(id),
            )
        },
    }
}

/// The error that stops `voter` from voting on proposal `id` at `now`, if any.
pub open spec fn vote_error(
    s: DaoState,
    voter: AccountId,
    id: u32,
    voter_voting_power: u128,
    now: u64,
) -> Option<DaoError> {
    if !is_member(s, voter) {
        Some(DaoError::Unauthorized)
    } else if !proposal_exists(s, id) {
        Some(DaoError::ProposalNotFound)
    } else if now < proposal(s, id).start_time || now > proposal(s, id).end_time {
        Some(DaoError::VotingEnded)
    } else if proposal(s, id).executed || proposal(s, id).cancelled {
        Some(DaoError::ProposalNotActive)
    } else if has_voted(proposal_votes(s, id), voter) {
        Some(DaoError::AlreadyVoted)
    } else if voter_voting_power == 0 {
        Some(DaoError::InsufficientVotingPower)
    } else {
        None
    }
}

/// Casting a vote with the voter's current voting power.
pub open spec fn vote_step(
    s: DaoState,
    voter: AccountId,
    id: u32,
    in_favor: bool,
    voter_voting_power: u128,
    now: u64,
) -> (DaoState, Result<(), DaoError>) {
    match vote_error(s, voter, id, voter_voting_power, now) {
        Some(e) => (s, Err(e)),
        None => {
            let v = Vote {
                voter,
                proposal_id: id,
                in_favor,
                voting_power: voter_voting_power,
                timestamp: now,
            };
            (
                DaoState {
                    votes: s.votes.update(id - 1, proposal_votes(s, id).push(v)),
                    ..s
                },
                Ok(()),
            )
        },
    }
}

/// The error met before the votes of proposal `id` are counted, if any.
pub open spec fn execute_error(s: DaoState, id: u32, now: u64) -> Option<DaoError> {
    if !proposal_exists(s, id) {
        Some(DaoError::ProposalNotFound)
    } else if proposal(s, id).executed {
        Some(DaoError::ProposalFailed)
    } else if proposal(s, id).cancelled {
        Some(DaoError::ProposalNotActive)
    } else if now <= proposal(s, id).end_time {
        Some(DaoError::VotingEnded)
    } else if now < proposal(s, id).execution_time {
        Some(DaoError::ExecutionTimelockActive)
    } else {
        None
    }
}

/// Whether proposal `id` passed: quorum reached and more power in favour than
/// against.
pub open spec fn proposal_passed(s: DaoState, id: u32, total_voting_power: u128) -> bool {
    let vs = proposal_votes(s, id);
    &&& quorum_reached(power_cast(vs), total_voting_power as int, s.config.unwrap().quorum_percentage)
    &&& power_for(vs) > power_against(vs)
}

/// Executing a passed proposal: contract calls are handed to the host,
/// parameter changes are refused (none is supported), member changes add
/// then remove the listed members; then the proposal is marked executed.
pub open spec fn execute_step(s: DaoState, id: u32, total_voting_power: u128, now: u64) -> (
    DaoState,
    Result<ExecutionView, DaoError>,
) {
    match execute_error(s, id, now) {
        Some(e) => (s, Err(e)),
        None => {
            let p = proposal(s, id);
            let vs = proposal_votes(s, id);
            if !proposal_passed(s, id, total_voting_power) {
                (s, Err(DaoError::QuorumNotReached))
            } else if p.proposal_type == ProposalType::ParameterChange && p.parameter_changes.len()
                > 0 {
                (s, Err(DaoError::InvalidParameters))
            } else {
                let members = if p.proposal_type == ProposalType::MemberManagement {
                    without_members(with_members(s.members, p.new_members), p.remove_members)
                } else {
                    s.members
                };
                let calls = if p.proposal_type == ProposalType::ContractCall {
                    p.contract_calls
                } else {
                    Seq::empty()
                };
                (
                    DaoState {
                        members,
                        proposals: s.proposals.update(id - 1, ProposalView { executed: true, ..p }),
                        ..s
                    },
                    Ok(
                        ExecutionView {
                            calls,
                            votes_for: power_for(vs) as u128,
                            votes_against: power_against(vs) as u128,
                        },
                    ),
                )
            }
        },
    }
}

/// Cancelling a proposal (its proposer or the administrator).
pub open spec fn cancel_step(s: DaoState, canceller: AccountId, admin: AccountId, id: u32) -> (
    DaoState,
    Result<(), DaoError>,
) {
    if !proposal_exists(s, id) {
        (s, Err(DaoError::ProposalNotFound))
    } else if proposal(s, id).proposer != canceller && admin != canceller {
        (s, Err(DaoError::Unauthorized))
    } else if proposal(s, id).executed {
        (s, Err(DaoError::ProposalFailed))
    } else {
        (
            DaoState {
                proposals: s.proposals.update(
                    id - 1,
                    ProposalView { cancelled: true, ..proposal(s, id) },
                ),
                ..s
            },
            Ok(()),
        )
    }
}

/// An entry point that changes the DAO's storage, with its arguments.
pub enum DaoOp {
    Initialize { config: DaoConfig },
    AddMember { caller: AccountId, admin: AccountId, member: AccountId },
    RemoveMember { caller: AccountId, admin: AccountId, member: AccountId },
    CreateProposal {
        proposer: AccountId,
        proposer_voting_power: u128,
        proposal_type: ProposalType,
        title: Seq<u8>,
        description: Seq<u8>,
        contract_calls: Seq<ContractCallView>,
        parameter_changes: Seq<ParameterChangeView>,
        new_members: Seq<AccountId>,
        remove_members: Seq<AccountId>,
        execution_delay: u64,
        now: u64,
    },
    Vote { voter: AccountId, id: u32, in_favor: bool, voter_voting_power: u128, now: u64 },
    Execute { id: u32, total_voting_power: u128, now: u64 },
    Cancel { canceller: AccountId, admin: AccountId, id: u32 },
}

/// The storage after operation `op`, whether it succeeds or fails.
pub open spec fn apply_op(s: DaoState, op: DaoOp) -> DaoState {
    match op {
        DaoOp::Initialize { config } => initialize_step(s, config).0,
        DaoOp::AddMember { caller, admin, member } => add_member_step(s, caller, admin, member).0,
        DaoOp::RemoveMember { caller, admin, member } => remove_member_step(
            s,
            caller,
            admin,
            member,
        ).0,
        DaoOp::CreateProposal {
            proposer,
            proposer_voting_power,
            proposal_type,
            title,
            description,
            contract_calls,
            parameter_changes,
            new_members,
            remove_members,
            execution_delay,
            now,
        } => create_proposal_step(
            s,
            proposer,
            proposer_voting_power,
            proposal_type,
            title,
            description,
            contract_calls,
            parameter_changes,
            new_members,
            remove_members,
            execution_delay,
            now,
        ).0,
        DaoOp::Vote { voter, id, in_favor, voter_voting_power, now } => vote_step(
            s,
            voter,
            id,
            in_favor,
            voter_voting_power,
            now,
        ).0,
        DaoOp::Execute { id, total_voting_power, now } => execute_step(
            s,
            id,
            total_voting_power,
            now,
        ).0,
        DaoOp::Cancel { canceller, admin, id } => cancel_step(s, canceller, admin, id).0,
    }
}

/// The storage after the operations `ops`, in order.
pub open spec fn run_ops(s: DaoState, ops: Seq<DaoOp>) -> DaoState
    decreases ops.len(),
{
    if ops.len() == 0 {
        s
    } else {
        apply_op(run_ops(s, ops.drop_last()), ops.last())
    }
}

// ---------------------------------------------------------------------------
// Laws
// ---------------------------------------------------------------------------

/// A proposal executes only after its voting period ended and its timelock
/// elapsed, with the quorum reached and more power in favour than against.
pub proof fn lemma_execution_requires_passing(
    s: DaoState,
    id: u32,
    total_voting_power: u128,
    now: u64,
)
    requires
        execute_step(s, id, total_voting_power, now).1 is Ok,
    ensures
        proposal_exists(s, id),
        !proposal(s, id).executed,
        !proposal(s, id).cancelled,
        now > proposal(s, id).end_time,
        now >= proposal(s, id).execution_time,
        proposal_passed(s, id, total_voting_power),
        power_for(proposal_votes(s, id)) > power_against(proposal_votes(s, id)),
{
}

/// A proposal executes at most once: afterwards executing it again fails
/// with `ProposalFailed`, cancelling it fails, and no vote on it is taken.
pub proof fn lemma_proposal_executes_once(
    s: DaoState,
    id: u32,
    total_voting_power: u128,
    now: u64,
    later_total: u128,
    later: u64,
    canceller: AccountId,
    admin: AccountId,
    voter: AccountId,
    in_favor: bool,
    power: u128,
)
    requires
        state_inv(s),
        execute_step(s, id, total_voting_power, now).1 is Ok,
    ensures
        ({
            let after = execute_step(s, id, total_voting_power, now).0;
            &&& execute_step(after, id, later_total, later).1 == Err::<ExecutionView, DaoError>(
                DaoError::ProposalFailed,
            )
            &&& cancel_step(after, canceller, admin, id).1 is Err
            &&& vote_step(after, voter, id, in_favor, power, later).1 is Err
        }),
{
}

/// Once initialized, one operation leaves an executed proposal as it is and
/// the DAO initialized.
proof fn lemma_op_keeps_executed_proposal(s: DaoState, id: u32, op: DaoOp)
    requires
        s.config is Some,
        proposal_exists(s, id),
        proposal(s, id).executed,
    ensures
        apply_op(s, op).config is Some,
        proposal_exists(apply_op(s, op), id),
        proposal(apply_op(s, op), id) == proposal(s, id),
{
}

/// The DAO stays initialized and an executed proposal stays executed along
/// operations that start from an initialized DAO.
proof fn lemma_run_keeps_executed_proposal(s: DaoState, id: u32, ops: Seq<DaoOp>)
    requires
        s.config is Some,
        proposal_exists(s, id),
        proposal(s, id).executed,
    ensures
        run_ops(s, ops).config is Some,
        proposal_exists(run_ops(s, ops), id),
        proposal(run_ops(s, ops), id) == proposal(s, id),
    decreases ops.len(),
{
    if ops.len() > 0 {
        lemma_run_keeps_executed_proposal(s, id, ops.drop_last());
        lemma_op_keeps_executed_proposal(run_ops(s, ops.drop_last()), id, ops.last());
    }
}

/// An executed proposal stays executed, whatever operations follow: it keeps
/// every field, executing it again fails with `ProposalFailed`, and
/// cancelling it or voting on it fails.
pub proof fn lemma_executed_proposal_stays_executed(
    s: DaoState,
    id: u32,
    ops: Seq<DaoOp>,
    total_voting_power: u128,
    now: u64,
    canceller: AccountId,
    admin: AccountId,
    voter: AccountId,
    in_favor: bool,
    power: u128,
)
    requires
        state_inv(s),
        proposal_exists(s, id),
        proposal(s, id).executed,
    ensures
        ({
            let after = run_ops(s, ops);
            &&& proposal_exists(after, id)
            &&& proposal(after, id) == proposal(s, id)
            &&& execute_step(after, id, total_voting_power, now).1 == Err::<ExecutionView, DaoError>(
                DaoError::ProposalFailed,
            )
            &&& cancel_step(after, canceller, admin, id).1 is Err
            &&& vote_step(after, voter, id, in_favor, power, now).1 is Err
        }),
{
    lemma_run_keeps_executed_proposal(s, id, ops);
}

/// The quorum counts every vote cast, for and against.  Once no check that
/// comes before the count stops it, a proposal that is not a parameter
/// change executes exactly when all power cast, for and against together,
/// is at least the quorum share of the total voting power and more power is
/// in favour than against; the execution reports both tallies, and a
/// refused one is answered `QuorumNotReached` and changes nothing.
pub proof fn lemma_execution_succeeds_exactly_when_passed(
    s: DaoState,
    id: u32,
    total_voting_power: u128,
    now: u64,
)
    requires
        state_inv(s),
        execute_error(s, id, now) is None,
        total_voting_power > 0,
        power_cast(proposal_votes(s, id)) * 100 <= u128::MAX,
        proposal(s, id).proposal_type != ProposalType::ParameterChange,
    ensures
        ({
            let vs = proposal_votes(s, id);
            let cast = power_for(vs) + power_against(vs);
            let quorum = s.config.unwrap().quorum_percentage;
            let (after, res) = execute_step(s, id, total_voting_power, now);
            &&& res is Ok <==> (cast * 100 / (total_voting_power as int) >= quorum && power_for(vs)
                > power_against(vs))
            &&& res is Ok ==> res->Ok_0.votes_for == power_for(vs) && res->Ok_0.votes_against
                == power_against(vs)
            &&& res is Err ==> res == Err::<ExecutionView, DaoError>(DaoError::QuorumNotReached)
                && after == s
        }),
{
    let vs = proposal_votes(s, id);
    lemma_tally_splits(vs);
}

/// Creating a proposal, for a member with at least the proposal threshold of
/// voting power: a general proposal is always taken; a contract-call
/// proposal needs a call, a parameter-change proposal a change, and a
/// member-management proposal a member to add or one to remove (either
/// suffices).  A proposal that is taken gets the next number; one that is
/// not is refused with `InvalidParameters`.
pub proof fn lemma_proposal_content_rules(
    s: DaoState,
    proposer: AccountId,
    proposer_voting_power: u128,
    proposal_type: ProposalType,
    title: Seq<u8>,
    description: Seq<u8>,
    contract_calls: Seq<ContractCallView>,
    parameter_changes: Seq<ParameterChangeView>,
    new_members: Seq<AccountId>,
    remove_members: Seq<AccountId>,
    execution_delay: u64,
    now: u64,
)
    requires
        s.config is Some,
        s.members.contains(proposer),
        proposer_voting_power >= s.config.unwrap().proposal_threshold,
    ensures
        ({
            let res = create_proposal_step(
                s,
                proposer,
                proposer_voting_power,
                proposal_type,
                title,
                description,
                contract_calls,
                parameter_changes,
                new_members,
                remove_members,
                execution_delay,
                now,
            ).1;
            let taken = match proposal_type {
                ProposalType::General => true,
                ProposalType::ContractCall => contract_calls.len() > 0,
                ProposalType::ParameterChange => parameter_changes.len() > 0,
                ProposalType::MemberManagement => new_members.len() > 0 || remove_members.len()
                    > 0,
            };
            &&& taken ==> res == Ok::<u32, DaoError>((s.proposal_count + 1) as u32)
            &&& !taken ==> res == Err::<u32, DaoError>(DaoError::InvalidParameters)
            &&& proposal_type == ProposalType::MemberManagement && remove_members.len() > 0 ==> res
                == Ok::<u32, DaoError>((s.proposal_count + 1) as u32)
        }),
{
}

/// When votes are taken and when execution may start.  A member with voting
/// power votes once on an open proposal exactly within its voting period,
/// both ends included; the vote is recorded with the voter's power and the
/// time, and the proposal itself is unchanged.  An open proposal passes the
/// checks before the count exactly once its voting period is over and its
/// execution time has come; before that the answer is `VotingEnded`, then
/// `ExecutionTimelockActive`.
pub proof fn lemma_voting_and_execution_times(
    s: DaoState,
    voter: AccountId,
    id: u32,
    in_favor: bool,
    power: u128,
    now: u64,
)
    requires
        state_inv(s),
        proposal_exists(s, id),
        !proposal(s, id).executed,
        !proposal(s, id).cancelled,
    ensures
        ({
            let p = proposal(s, id);
            let (after, res) = vote_step(s, voter, id, in_favor, power, now);
            s.members.contains(voter) && power > 0 && !has_voted(proposal_votes(s, id), voter) ==> {
                &&& res is Ok <==> p.start_time <= now <= p.end_time
                &&& res is Ok ==> {
                    &&& proposal_votes(after, id) == proposal_votes(s, id).push(
                        Vote {
                            voter,
                            proposal_id: id,
                            in_favor,
                            voting_power: power,
                            timestamp: now,
                        },
                    )
                    &&& after.proposals == s.proposals
                    &&& after.members == s.members
                }
                &&& res is Err ==> res == Err::<(), DaoError>(DaoError::VotingEnded) && after == s
            }
        }),
        ({
            let p = proposal(s, id);
            &&& execute_error(s, id, now) is None <==> (now > p.end_time && now
                >= p.execution_time)
            &&& now <= p.end_time ==> execute_error(s, id, now) == Some(DaoError::VotingEnded)
            &&& now > p.end_time && now < p.execution_time ==> execute_error(s, id, now) == Some(
                DaoError::ExecutionTimelockActive,
            )
        }),
{
}

/// A cancelled proposal never executes.
pub proof fn lemma_cancelled_never_executes(
    s: DaoState,
    canceller: AccountId,
    admin: AccountId,
    id: u32,
    total_voting_power: u128,
    now: u64,
)
    requires
        cancel_step(s, canceller, admin, id).1 is Ok,
    ensures
        execute_step(cancel_step(s, canceller, admin, id).0, id, total_voting_power, now).1
            == Err::<ExecutionView, DaoError>(DaoError::ProposalNotActive),
{
}

/// What executing a passed proposal does, by its type.  A contract-call
/// proposal hands its calls to the host in order; a parameter-change
/// proposal is refused with `InvalidParameters` and nothing changes; a
/// member-management proposal leaves as members exactly those who were
/// members or are added and are not removed; a general proposal changes no
/// membership.  Whatever executes is marked executed and cannot execute again.
pub proof fn lemma_execution_effects(
    s: DaoState,
    id: u32,
    total_voting_power: u128,
    now: u64,
    later_total: u128,
    later: u64,
)
    requires
        state_inv(s),
        execute_error(s, id, now) is None,
        proposal_passed(s, id, total_voting_power),
    ensures
        ({
            let p = proposal(s, id);
            let (after, res) = execute_step(s, id, total_voting_power, now);
            &&& p.proposal_type == ProposalType::ParameterChange ==> {
                &&& res == Err::<ExecutionView, DaoError>(DaoError::InvalidParameters)
                &&& after == s
            }
            &&& p.proposal_type != ProposalType::ParameterChange ==> {
                &&& res is Ok
                &&& proposal(after, id).executed
                &&& execute_step(after, id, later_total, later).1 == Err::<ExecutionView, DaoError>(
                    DaoError::ProposalFailed,
                )
            }
            &&& p.proposal_type == ProposalType::ContractCall ==> res->Ok_0.calls == p.contract_calls
            &&& p.proposal_type != ProposalType::ContractCall && res is Ok ==> res->Ok_0.calls
                =~= Seq::<ContractCallView>::empty()
            &&& p.proposal_type == ProposalType::MemberManagement ==> forall|a: AccountId|
                #[trigger] after.members.contains(a) <==> ((s.members.contains(a)
                    || p.new_members.contains(a)) && !p.remove_members.contains(a))
            &&& p.proposal_type == ProposalType::General ==> after.members == s.members
            &&& p.proposal_type == ProposalType::ContractCall ==> after.members == s.members
        }),
{
    let p = proposal(s, id);
    assert(carries_content(s.proposals[id - 1]));
    if p.proposal_type == ProposalType::MemberManagement {
        let added = with_members(s.members, p.new_members);
        lemma_with_members_no_duplicates(s.members, p.new_members);
        assert forall|a: AccountId|
            #[trigger] without_members(added, p.remove_members).contains(a) <==> ((s.members.contains(
                a,
            ) || p.new_members.contains(a)) && !p.remove_members.contains(a)) by {
            lemma_with_members_contains(s.members, p.new_members, a);
            lemma_without_members_contains(added, p.remove_members, a);
        }
    }
}

/// A member votes at most once on a proposal, and a vote adds exactly the
/// voter's power to the tally, on the side the voter chose.
pub proof fn lemma_one_vote_per_member(
    s: DaoState,
    voter: AccountId,
    id: u32,
    in_favor: bool,
    power: u128,
    now: u64,
    again_in_favor: bool,
    again_power: u128,
    later: u64,
)
    requires
        state_inv(s),
        vote_step(s, voter, id, in_favor, power, now).1 is Ok,
    ensures
        ({
            let after = vote_step(s, voter, id, in_favor, power, now).0;
            let before_votes = proposal_votes(s, id);
            let after_votes = proposal_votes(after, id);
            &&& has_voted(after_votes, voter)
            &&& vote_step(after, voter, id, again_in_favor, again_power, later).1 is Err
            &&& power_cast(after_votes) == power_cast(before_votes) + power
            &&& power_for(after_votes) == power_for(before_votes) + if in_favor {
                power as int
            } else {
                0
            }
            &&& power_against(after_votes) == power_against(before_votes) + if in_favor {
                0
            } else {
                power as int
            }
        }),
{
    let after = vote_step(s, voter, id, in_favor, power, now).0;
    let v = Vote { voter, proposal_id: id, in_favor, voting_power: power, timestamp: now };
    let after_votes = proposal_votes(after, id);
    assert(after_votes == proposal_votes(s, id).push(v));
    assert(after_votes.drop_last() =~= proposal_votes(s, id));
    assert(after_votes[after_votes.len() - 1].voter == voter);
}

/// Proposals are numbered one after another from 1, and a created proposal
/// is found again under its number as it was proposed, open for voting from
/// its creation.
pub proof fn lemma_proposal_read_back(
    s: DaoState,
    proposer: AccountId,
    proposer_voting_power: u128,
    proposal_type: ProposalType,
    title: Seq<u8>,
    description: Seq<u8>,
    contract_calls: Seq<ContractCallView>,
    parameter_changes: Seq<ParameterChangeView>,
    new_members: Seq<AccountId>,
    remove_members: Seq<AccountId>,
    execution_delay: u64,
    now: u64,
)
    requires
        state_inv(s),
        s.proposal_count < u32::MAX,
        create_proposal_step(
            s,
            proposer,
            proposer_voting_power,
            proposal_type,
            title,
            description,
            contract_calls,
            parameter_changes,
            new_members,
            remove_members,
            execution_delay,
            now,
        ).1 is Ok,
    ensures
        ({
            let (after, res) = create_proposal_step(
                s,
                proposer,
                proposer_voting_power,
                proposal_type,
                title,
                description,
                contract_calls,
                parameter_changes,
                new_members,
                remove_members,
                execution_delay,
                now,
            );
            let id = res->Ok_0;
            &&& id == s.proposal_count + 1
            &&& proposal_exists(after, id)
            &&& proposal(after, id).proposer == proposer
            &&& proposal(after, id).proposal_type == proposal_type
            &&& proposal(after, id).title == title
            &&& proposal(after, id).contract_calls == contract_calls
            &&& proposal(after, id).start_time == now
            &&& !proposal(after, id).executed && !proposal(after, id).cancelled
            &&& proposal_votes(after, id) == Seq::<Vote>::empty()
            &&& forall|k: u32| #[trigger] proposal_exists(s, k) ==> proposal(after, k) == proposal(
                s,
                k,
            )
        }),
{
    let (after, res) = create_proposal_step(
        s,
        proposer,
        proposer_voting_power,
        proposal_type,
        title,
        description,
        contract_calls,
        parameter_changes,
        new_members,
        remove_members,
        execution_delay,
        now,
    );
    let id = res->Ok_0;
    assert(id == s.proposal_count + 1);
    assert(after.proposals.len() == s.proposals.len() + 1);
    assert(proposal(after, id) == after.proposals[s.proposals.len() as int]);
    assert forall|k: u32| #[trigger] proposal_exists(s, k) implies proposal(after, k) == proposal(
        s,
        k,
    ) by {
        assert(after.proposals[k - 1] == s.proposals[k - 1]);
    }
}

/// Adding a member makes it a member; removing one makes it no longer a
/// member; the member list never holds an address twice.
pub proof fn lemma_membership_read_back(
    s: DaoState,
    caller: AccountId,
    admin: AccountId,
    member: AccountId,
)
    requires
        state_inv(s),
    ensures
        add_member_step(s, caller, admin, member).1 is Ok ==> is_member(
            add_member_step(s, caller, admin, member).0,
            member,
        ),
        remove_member_step(s, caller, admin, member).1 is Ok ==> !is_member(
            remove_member_step(s, caller, admin, member).0,
            member,
        ),
        no_duplicates(add_member_step(s, caller, admin, member).0.members),
        no_duplicates(remove_member_step(s, caller, admin, member).0.members),
{
    assert(s.members.push(member)[s.members.len() as int] == member);
    lemma_without_member_no_duplicates(s.members, member);
}

impl View for DaoGovernance {
    type V = DaoState;

    closed spec fn view(&self) -> DaoState {
        DaoState {
            config: self.config,
            proposal_count: self.proposal_count,
            members: self.members@,
            proposals: self.proposals@.map_values(|p: Proposal| p@),
            votes: self.votes@.map_values(|v: Vec<Vote>| v@),
        }
    }
}

fn copy_calls(v: &Vec<ContractCall>) -> (r: Vec<ContractCall>)
    ensures
        calls_view(r@) == calls_view(v@),
{
    let mut r: Vec<ContractCall> = Vec::new();
    let mut i: usize = 0;
    while i < v.len()
        invariant
            i <= v.len(),
            r@.len() == i,
            forall|k: int| 0 <= k < i ==> (#[trigger] r@[k])@ == v@[k]@,
        decreases v.len() - i,
    {
        let c = v[i].duplicate();
        r.push(c);
        i = i + 1;
    }
    assert(calls_view(r@) =~= calls_view(v@));
    r
}

/// Whether `voter` has a vote among `votes`.
fn find_vote(votes: &Vec<Vote>, voter: AccountId) -> (res: bool)
    ensures
        res == has_voted(votes@, voter),
{
    let mut i: usize = 0;
    while i < votes.len()
        invariant
            i <= votes.len(),
            forall|j: int| 0 <= j < i ==> votes@[j].voter != voter,
        decreases votes.len() - i,
    {
        if votes[i].voter == voter {
            assert(votes@[i as int].voter == voter);
            return true;
        }
        i = i + 1;
    }
    false
}

impl DaoGovernance {
    /// Whether the storage is one that the contract can reach.
    pub open spec fn wf(&self) -> bool {
        state_inv(self@)
    }

    /// The storage of a DAO that has not been initialized.
    pub fn new() -> (s: Self)
        ensures
            s@ == uninitialized(),
            s.wf(),
    {
        let s = DaoGovernance {
            config: None,
            proposal_count: 0,
            members: Vec::new(),
            proposals: Vec::new(),
            votes: Vec::new(),
        };
        assert(s@.proposals =~= Seq::<ProposalView>::empty());
        assert(s@.votes =~= Seq::<Seq<Vote>>::empty());
        s
    }

    /// Initialize the DAO with configuration
    pub fn initialize(&mut self, config: DaoConfig) -> (res: Result<(), DaoError>)
        requires
            old(self).wf(),
        ensures
            final(self).wf(),
            (final(self)@, res) == initialize_step(old(self)@, config),
    {
        if self.config.is_some() {
            return Err(DaoError::AlreadyInitialized);
        }
        if config.quorum_percentage > 100 {
            return Err(DaoError::InvalidParameters);
        }
        self.config = Some(config);
        self.proposal_count = 0;
        self.members = Vec::new();
        self.proposals = Vec::new();
        self.votes = Vec::new();
        assert(self@.proposals =~= Seq::<ProposalView>::empty());
        assert(self@.votes =~= Seq::<Seq<Vote>>::empty());
        Ok(())
    }

    /// Add a member to the DAO; `caller` must be `admin`, the administrator.
    pub fn add_member(&mut self, caller: AccountId, admin: AccountId, member: AccountId) -> (res:
        Result<(), DaoError>)
        requires
            old(self).wf(),
            old(self)@.config is Some,
        ensures
            final(self).wf(),
            (final(self)@, res) == add_member_step(old(self)@, caller, admin, member),
    {
        if caller != admin {
            return Err(DaoError::Unauthorized);
        }
        match find_member(&self.members, member) {
            Some(_) => Err(DaoError::MemberAlreadyExists),
            None => {
                self.members.push(member);
                Ok(())
            },
        }
    }

    fn remove_at(&mut self, i: usize)
        requires
            i < old(self).members.len(),
        ensures
            final(self)@ == (DaoState { members: old(self)@.members.remove(i as int), ..old(self)@ }),
    {
        self.members.remove(i);
    }

    /// Remove a member from the DAO; `caller` must be `admin`, the
    /// administrator.
    pub fn remove_member(&mut self, caller: AccountId, admin: AccountId, member: AccountId) -> (res:
        Result<(), DaoError>)
        requires
            old(self).wf(),
        ensures
            final(self).wf(),
            (final(self)@, res) == remove_member_step(old(self)@, caller, admin, member),
    {
        if caller != admin {
            return Err(DaoError::Unauthorized);
        }
        match find_member(&self.members, member) {
            Some(i) => {
                proof {
                    lemma_first_index_unique(self@.members, member, i as int);
                    lemma_without_member_no_duplicates(self@.members, member);
                }
                self.remove_at(i);
                Ok(())
            },
            None => Err(DaoError::MemberNotFound),
        }
    }

    /// Create a new proposal; returns its number.  The proposer's voting
    /// power is its balance of the voting token.
    pub fn create_proposal(
        &mut self,
        proposer: AccountId,
        proposer_voting_power: u128,
        proposal_type: ProposalType,
        title: Vec<u8>,
        description: Vec<u8>,
        contract_calls: Vec<ContractCall>,
        parameter_changes: Vec<ParameterChange>,
        new_members: Vec<AccountId>,
        remove_members: Vec<AccountId>,
        execution_delay: u64,
        now: u64,
    ) -> (res: Result<u32, DaoError>)
        requires
            old(self).wf(),
            create_proposal_error(
                old(self)@,
                proposer,
                proposer_voting_power,
                proposal_type,
                contract_calls.len() as int,
                parameter_changes.len() as int,
                new_members.len() as int,
                remove_members.len() as int,
            ) is None ==> {
                &&& old(self)@.proposal_count < u32::MAX
                &&& now + old(self)@.config.unwrap().voting_period + execution_delay <= u64::MAX
            },
        ensures
            final(self).wf(),
            (final(self)@, res) == create_proposal_step(
                old(self)@,
                proposer,
                proposer_voting_power,
                proposal_type,
                title@,
                description@,
                calls_view(contract_calls@),
                parameter_changes@.map_values(|c: ParameterChange| c@),
                new_members@,
                remove_members@,
                execution_delay,
                now,
            ),
    {
        if find_member(&self.members, proposer).is_none() {
            return Err(DaoError::Unauthorized);
        }
        let config = match self.config {
            Some(c) => c,
            None => {
                return Err(DaoError::NotInitialized);
            },
        };
        if proposer_voting_power < config.proposal_threshold {
            return Err(DaoError::InsufficientVotingPower);
        }
        let valid = match proposal_type {
            ProposalType::ContractCall => contract_calls.len() > 0,
            ProposalType::ParameterChange => parameter_changes.len() > 0,
            ProposalType::MemberManagement => new_members.len() > 0 || remove_members.len() > 0,
            ProposalType::General => true,
        };
        if !valid {
            return Err(DaoError::InvalidParameters);
        }
        let id = self.proposal_count + 1;
        let end_time = now + config.voting_period;
        let execution_time = now + config.voting_period + execution_delay;
        let p = Proposal {
            id,
            proposer,
            proposal_type,
            title,
            description,
            contract_calls,
            parameter_changes,
            new_members,
            remove_members,
            start_time: now,
            end_time,
            execution_time,
            executed: false,
            cancelled: false,
        };
        self.proposals.push(p);
        self.votes.push(Vec::new());
        self.proposal_count = id;
        proof {
            assert(self@.proposals =~= old(self)@.proposals.push(p@));
            assert(self@.votes =~= old(self)@.votes.push(Seq::empty()));
        }
        Ok(id)
    }

    /// Cast a vote on a proposal with the voter's voting power (its balance
    /// of the voting token) at time `now`.
    pub fn vote(
        &mut self,
        voter: AccountId,
        proposal_id: u32,
        in_favor: bool,
        voter_voting_power: u128,
        now: u64,
    ) -> (res: Result<(), DaoError>)
        requires
            old(self).wf(),
        ensures
            final(self).wf(),
            (final(self)@, res) == vote_step(
                old(self)@,
                voter,
                proposal_id,
                in_favor,
                voter_voting_power,
                now,
            ),
    {
        if find_member(&self.members, voter).is_none() {
            return Err(DaoError::Unauthorized);
        }
        if proposal_id == 0 || proposal_id as usize > self.proposals.len() {
            return Err(DaoError::ProposalNotFound);
        }
        let idx = (proposal_id - 1) as usize;
        let p = &self.proposals[idx];
        if now < p.start_time || now > p.end_time {
            return Err(DaoError::VotingEnded);
        }
        if p.executed || p.cancelled {
            return Err(DaoError::ProposalNotActive);
        }
        proof {
            assert(self@.votes[idx as int] == self.votes@[idx as int]@);
        }
        if find_vote(&self.votes[idx], voter) {
            return Err(DaoError::AlreadyVoted);
        }
        if voter_voting_power == 0 {
            return Err(DaoError::InsufficientVotingPower);
        }
        let v = Vote {
            voter,
            proposal_id,
            in_favor,
            voting_power: voter_voting_power,
            timestamp: now,
        };
        let mut cast: Vec<Vote> = Vec::new();
        std::mem::swap(&mut cast, &mut self.votes[idx]);
        cast.push(v);
        self.votes.set(idx, cast);
        proof {
            assert(self@.votes =~= old(self)@.votes.update(
                idx as int,
                old(self)@.votes[idx as int].push(v),
            ));
            let vs = self@.votes[idx as int];
            assert forall|a: int, b: int|
                0 <= a < vs.len() && 0 <= b < vs.len() && a != b implies vs[a].voter
                != vs[b].voter by {
                if a == vs.len() - 1 {
                    assert(vs[b] == old(self)@.votes[idx as int][b]);
                } else if b == vs.len() - 1 {
                    assert(vs[a] == old(self)@.votes[idx as int][a]);
                }
            }
        }
        Ok(())
    }

    fn apply_member_changes(&mut self, adds: &Vec<AccountId>, removes: &Vec<AccountId>)
        requires
            no_duplicates(old(self)@.members),
        ensures
            final(self)@ == (DaoState {
                members: without_members(with_members(old(self)@.members, adds@), removes@),
                ..old(self)@
            }),
    {
        let mut i: usize = 0;
        assert(adds@.take(0) =~= Seq::<AccountId>::empty());
        while i < adds.len()
            invariant
                i <= adds.len(),
                self@ == (DaoState {
                    members: with_members(old(self)@.members, adds@.take(i as int)),
                    ..old(self)@
                }),
            decreases adds.len() - i,
        {
            let x = adds[i];
            proof {
                assert(adds@.take(i + 1).drop_last() =~= adds@.take(i as int));
            }
            if find_member(&self.members, x).is_none() {
                self.members.push(x);
            }
            i = i + 1;
        }
        assert(adds@.take(adds.len() as int) =~= adds@);
        proof {
            lemma_with_members_no_duplicates(old(self)@.members, adds@);
        }
        let ghost added = self@.members;
        let mut k: usize = 0;
        assert(removes@.take(0) =~= Seq::<AccountId>::empty());
        while k < removes.len()
            invariant
                k <= removes.len(),
                added == with_members(old(self)@.members, adds@),
                no_duplicates(added),
                self@ == (DaoState {
                    members: without_members(added, removes@.take(k as int)),
                    ..old(self)@
                }),
            decreases removes.len() - k,
        {
            let x = removes[k];
            proof {
                assert(removes@.take(k + 1).drop_last() =~= removes@.take(k as int));
            }
            match find_member(&self.members, x) {
                Some(j) => {
                    proof {
                        lemma_first_index_unique(self@.members, x, j as int);
                    }
                    self.remove_at(j);
                },
                None => {},
            }
            k = k + 1;
        }
        assert(removes@.take(removes.len() as int) =~= removes@);
    }

    /// Execute a passed proposal at time `now`; `total_voting_power` is the
    /// voting token's total supply.  Returns the contract calls the host
    /// invokes and the tally.
    pub fn execute_proposal(&mut self, proposal_id: u32, total_voting_power: u128, now: u64) -> (res:
        Result<Execution, DaoError>)
        requires
            old(self).wf(),
            execute_error(old(self)@, proposal_id, now) is None ==> {
                &&& power_cast(proposal_votes(old(self)@, proposal_id)) * 100 <= u128::MAX
                &&& total_voting_power > 0
            },
        ensures
            final(self).wf(),
            final(self)@ == execute_step(old(self)@, proposal_id, total_voting_power, now).0,
            match res {
                Ok(x) => execute_step(old(self)@, proposal_id, total_voting_power, now).1 == Ok::<
                    ExecutionView,
                    DaoError,
                >(x@),
                Err(e) => execute_step(old(self)@, proposal_id, total_voting_power, now).1 == Err::<
                    ExecutionView,
                    DaoError,
                >(e),
            },
    {
        if proposal_id == 0 || proposal_id as usize > self.proposals.len() {
            return Err(DaoError::ProposalNotFound);
        }
        let idx = (proposal_id - 1) as usize;
        if self.proposals[idx].executed {
            return Err(DaoError::ProposalFailed);
        }
        if self.proposals[idx].cancelled {
            return Err(DaoError::ProposalNotActive);
        }
        if now <= self.proposals[idx].end_time {
            return Err(DaoError::VotingEnded);
        }
        if now < self.proposals[idx].execution_time {
            return Err(DaoError::ExecutionTimelockActive);
        }
        let config = match self.config {
            Some(c) => c,
            None => {
                return Err(DaoError::NotInitialized);
            },
        };
        proof {
            assert(self@.votes[idx as int] == self.votes@[idx as int]@);
            lemma_tally_splits(self.votes@[idx as int]@);
        }
        let (votes_for, votes_against, total_votes) = count_votes(&self.votes[idx]);
        let quorum = (total_votes * 100) / total_voting_power >= config.quorum_percentage as u128;
        if !quorum || votes_for <= votes_against {
            return Err(DaoError::QuorumNotReached);
        }
        let ptype = self.proposals[idx].proposal_type;
        let ghost p0 = old(self)@.proposals[idx as int];
        let mut calls: Vec<ContractCall> = Vec::new();
        proof {
            assert(calls_view(calls@) =~= Seq::<ContractCallView>::empty());
        }
        match ptype {
            ProposalType::ContractCall => {
                calls = copy_calls(&self.proposals[idx].contract_calls);
                assert(calls_view(calls@) == p0.contract_calls);
            },
            ProposalType::ParameterChange => {
                if self.proposals[idx].parameter_changes.len() > 0 {
                    return Err(DaoError::InvalidParameters);
                }
            },
            ProposalType::MemberManagement => {
                let adds = copy_ids(&self.proposals[idx].new_members);
                let removes = copy_ids(&self.proposals[idx].remove_members);
                self.apply_member_changes(&adds, &removes);
                proof {
                    lemma_with_members_no_duplicates(old(self)@.members, adds@);
                    lemma_without_members_no_duplicates(
                        with_members(old(self)@.members, adds@),
                        removes@,
                    );
                }
            },
            ProposalType::General => {},
        }
        let ghost before = self@;
        self.proposals[idx].executed = true;
        proof {
            assert(self@.proposals =~= before.proposals.update(
                idx as int,
                ProposalView { executed: true, ..before.proposals[idx as int] },
            ));
        }
        Ok(Execution { calls, votes_for, votes_against })
    }

    /// Cancel a proposal; only its proposer or `admin`, the administrator,
    /// may.
    pub fn cancel_proposal(&mut self, canceller: AccountId, admin: AccountId, proposal_id: u32) -> (res:
        Result<(), DaoError>)
        requires
            old(self).wf(),
        ensures
            final(self).wf(),
            (final(self)@, res) == cancel_step(old(self)@, canceller, admin, proposal_id),
    {
        if proposal_id == 0 || proposal_id as usize > self.proposals.len() {
            return Err(DaoError::ProposalNotFound);
        }
        let idx = (proposal_id - 1) as usize;
        if self.proposals[idx].proposer != canceller && admin != canceller {
            return Err(DaoError::Unauthorized);
        }
        if self.proposals[idx].executed {
            return Err(DaoError::ProposalFailed);
        }
        let ghost before = self@;
        self.proposals[idx].cancelled = true;
        proof {
            assert(self@.proposals =~= before.proposals.update(
                idx as int,
                ProposalView { cancelled: true, ..before.proposals[idx as int] },
            ));
        }
        Ok(())
    }

    /// Get proposal details
    pub fn get_proposal(&self, proposal_id: u32) -> (res: Option<&Proposal>)
        ensures
            match res {
                Some(p) => proposal_exists(self@, proposal_id) && p@ == proposal(self@, proposal_id),
                None => !proposal_exists(self@, proposal_id),
            },
    {
        if proposal_id == 0 || proposal_id as usize > self.proposals.len() {
            None
        } else {
            Some(&self.proposals[(proposal_id - 1) as usize])
        }
    }

    /// Get votes for a proposal, in the order they were cast (none for a
    /// proposal that does not exist).
    pub fn get_proposal_votes(&self, proposal_id: u32) -> (res: Vec<Vote>)
        requires
            self.wf(),
        ensures
            res@ == (if proposal_exists(self@, proposal_id) {
                proposal_votes(self@, proposal_id)
            } else {
                Seq::empty()
            }),
    {
        let mut out: Vec<Vote> = Vec::new();
        proof {
            assert(self@.votes.len() == self.votes@.len());
        }
        if proposal_id == 0 || proposal_id as usize > self.votes.len() {
            return out;
        }
        let idx = (proposal_id - 1) as usize;
        let n = self.votes[idx].len();
        let mut i: usize = 0;
        while i < n
            invariant
                idx < self.votes@.len(),
                n == self.votes@[idx as int]@.len(),
                i <= n,
                out@ == self.votes@[idx as int]@.take(i as int),
            decreases n - i,
        {
            out.push(self.votes[idx][i]);
            i = i + 1;
            assert(out@ =~= self.votes@[idx as int]@.take(i as int));
        }
        assert(out@ =~= self.votes@[idx as int]@);
        assert(self@.votes[idx as int] == self.votes@[idx as int]@);
        out
    }

    /// Check if address is a member
    pub fn is_member_view(&self, address: AccountId) -> (res: bool)
        ensures
            res == is_member(self@, address),
    {
        find_member(&self.members, address).is_some()
    }

    /// Get all members
    pub fn get_members(&self) -> (res: Vec<AccountId>)
        ensures
            res@ == self@.members,
    {
        copy_ids(&self.members)
    }

    /// Get DAO configuration
    pub fn get_config_view(&self) -> (res: DaoConfig)
        requires
            self@.config is Some,
        ensures
            self@.config == Some(res),
    {
        self.config.unwrap()
    }

    /// The number of proposals created.
    pub fn proposal_count(&self) -> (n: u32)
        ensures
            n == self@.proposal_count,
    {
        self.proposal_count
    }
}

} // verus!
