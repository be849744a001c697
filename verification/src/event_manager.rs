//! A multi-signature wallet: registered signers propose calls on other
//! contracts, approve them, and execute a call once enough signers approved
//! it.  Alongside, the checks that event creation applies to its inputs
//! (bounded strings, ticket prices, schedules, per-organizer limits).
//!
//! The wallet's storage is held in [`MultiSigContract`]; every entry point is
//! a method on it.  Authorising the caller is the host's work and happens
//! before a method is called; the call an executed proposal makes is
//! returned for the host to invoke.
use vstd::prelude::*;

use std::collections::HashSet;

use crate::{bytes_view, copy_byte_strings, no_duplicates, AccountId};

verus! {

broadcast use vstd::std_specs::hash::group_hash_axioms;

/// What can go wrong.  The wallet's own errors come first; the errors of the
/// event checks follow them.
#[derive(Clone, Copy, Debug, PartialEq, Eq, Structural)]
pub enum Error {
    NotInitialized,
    AlreadyInitialized,
    Unauthorized,
    InvalidThreshold,
    ProposalNotFound,
    AlreadyApproved,
    AlreadyExecuted,
    NotEnoughApprovals,
    MathOverflow,
    InvalidStringInput,
    TicketPriceOutOfRange,
    InvalidStartDate,
    InvalidEndDate,
    EventScheduleOutOfRange,
    TooManyOrganizerEvents,
    EventCreationRateLimited,
}

impl Error {
    /// The number by which the contract reports this error.  The errors of
    /// the event checks are numbered on from the wallet's, in the order in
    /// which they are declared; those numbers are this library's own choice.
    pub fn code(&self) -> (c: u32)
        ensures
            c == self.spec_code(),
    {
        match self {
            Error::NotInitialized => 1,
            Error::AlreadyInitialized => 2,
            Error::Unauthorized => 3,
            Error::InvalidThreshold => 4,
            Error::ProposalNotFound => 5,
            Error::AlreadyApproved => 6,
            Error::AlreadyExecuted => 7,
            Error::NotEnoughApprovals => 8,
            Error::MathOverflow => 9,
            Error::InvalidStringInput => 10,
            Error::TicketPriceOutOfRange => 11,
            Error::InvalidStartDate => 12,
            Error::InvalidEndDate => 13,
            Error::EventScheduleOutOfRange => 14,
            Error::TooManyOrganizerEvents => 15,
            Error::EventCreationRateLimited => 16,
        }
    }

    pub open spec fn spec_code(&self) -> u32 {
        match self {
            Error::NotInitialized => 1,
            Error::AlreadyInitialized => 2,
            Error::Unauthorized => 3,
            Error::InvalidThreshold => 4,
            Error::ProposalNotFound => 5,
            Error::AlreadyApproved => 6,
            Error::AlreadyExecuted => 7,
            Error::NotEnoughApprovals => 8,
            Error::MathOverflow => 9,
            Error::InvalidStringInput => 10,
            Error::TicketPriceOutOfRange => 11,
            Error::InvalidStartDate => 12,
            Error::InvalidEndDate => 13,
            Error::EventScheduleOutOfRange => 14,
            Error::TooManyOrganizerEvents => 15,
            Error::EventCreationRateLimited => 16,
        }
    }
}

/// A proposed call of `function` on `target`.  Each argument is a byte
/// string: the argument's value in the encoding that the host reads back
/// when it makes the call, so that an argument keeps its meaning however
/// long after the proposal the call is made.
#[derive(Debug)]
pub struct Proposal {
    pub target: AccountId,
    pub function: String,
    pub args: Vec<Vec<u8>>,
    pub approvals: u32,
    pub executed: bool,
}

pub struct ProposalView {
    pub target: AccountId,
    pub function: Seq<char>,
    pub args: Seq<Seq<u8>>,
    pub approvals: u32,
    pub executed: bool,
}

impl View for Proposal {
    type V = ProposalView;

    open spec fn view(&self) -> ProposalView {
        ProposalView {
            target: self.target,
            function: self.function@,
            args: bytes_view(self.args@),
            approvals: self.approvals,
            executed: self.executed,
        }
    }
}

/// The call that an executed proposal makes, for the host to invoke.
#[derive(Debug)]
pub struct Invocation {
    pub target: AccountId,
    pub function: String,
    pub args: Vec<Vec<u8>>,
}

pub struct InvocationView {
    pub target: AccountId,
    pub function: Seq<char>,
    pub args: Seq<Seq<u8>>,
}

impl View for Invocation {
    type V = InvocationView;

    open spec fn view(&self) -> InvocationView {
        InvocationView {
            target: self.target,
            function: self.function@,
            args: bytes_view(self.args@),
        }
    }
}

/// The wallet's storage as mathematical values.  Proposal `id` is stored at
/// position `id - 1` of `proposals`; the signers that approved it at the same
/// position of `approvers`.
pub struct MultiSigState {
    pub threshold: Option<u32>,
    pub proposal_count: u64,
    pub signers: Set<AccountId>,
    pub proposals: Seq<ProposalView>,
    pub approvers: Seq<Seq<AccountId>>,
}

/// The multi-signature wallet and its storage.  The fields are the storage
/// entries, public so that a host can load and save them; the methods require
/// and keep [`MultiSigContract::wf`].
pub struct MultiSigContract {
    pub threshold: Option<u32>,
    pub proposal_count: u64,
    pub signers: HashSet<AccountId>,
    pub proposals: Vec<Proposal>,
    pub approvers: Vec<Vec<AccountId>>,
}

impl View for MultiSigContract {
    type V = MultiSigState;

    closed spec fn view(&self) -> MultiSigState {
        MultiSigState {
            threshold: self.threshold,
            proposal_count: self.proposal_count,
            signers: self.signers@,
            proposals: self.proposals@.map_values(|p: Proposal| p@),
            approvers: self.approvers@.map_values(|v: Vec<AccountId>| v@),
        }
    }
}

/// A target contract that doubles its argument.
pub struct MockTargetContract;

impl MockTargetContract {
    pub fn ping(val: u32) -> (r: u32)
        requires
            2 * val <= u32::MAX,
        ensures
            r == 2 * val,
    {
        val * 2
    }
}

// ---------------------------------------------------------------------------
// The wallet as a state machine on MultiSigState
// ---------------------------------------------------------------------------

/// The storage before initialization.
pub open spec fn uninitialized() -> MultiSigState {
    MultiSigState {
        threshold: None,
        proposal_count: 0,
        signers: Set::empty(),
        proposals: Seq::empty(),
        approvers: Seq::empty(),
    }
}

/// What every reachable storage satisfies: before initialization there are
/// no signers and no proposals; each proposal's approval count is the number
/// of distinct signers that approved it.
pub open spec fn state_inv(s: MultiSigState) -> bool {
    &&& s.proposals.len() == s.proposal_count
    &&& s.approvers.len() == s.proposal_count
    &&& s.threshold is None ==> s.signers.is_empty() && s.proposal_count == 0
    &&& forall|i: int|
        0 <= i < s.proposals.len() ==> #[trigger] s.proposals[i].approvals == s.approvers[i].len()
    &&& forall|i: int| 0 <= i < s.approvers.len() ==> no_duplicates(#[trigger] s.approvers[i])
    &&& forall|i: int, k: int|
        0 <= i < s.approvers.len() && 0 <= k < s.approvers[i].len() ==> s.signers.contains(
            #[trigger] s.approvers[i][k],
        )
}

/// Whether proposal `id` exists.
pub open spec fn proposal_exists(s: MultiSigState, id: u64) -> bool {
    1 <= id <= s.proposals.len()
}

pub open spec fn proposal(s: MultiSigState, id: u64) -> ProposalView {
    s.proposals[id - 1]
}

pub open spec fn approvers(s: MultiSigState, id: u64) -> Seq<AccountId> {
    s.approvers[id - 1]
}

/// Registering the signers and the number of approvals a call needs, which
/// must be between 1 and the number of signers given.
pub open spec fn init_step(s: MultiSigState, signers: Seq<AccountId>, threshold: u32) -> (
    MultiSigState,
    Result<(), Error>,
) {
    if s.threshold is Some {
        (s, Err(Error::AlreadyInitialized))
    } else if threshold == 0 || threshold > signers.len() {
        (s, Err(Error::InvalidThreshold))
    } else {
        (
            MultiSigState {
                threshold: Some(threshold),
                proposal_count: 0,
                signers: s.signers.union(signers.to_set()),
                ..s
            },
            Ok(()),
        )
    }
}

/// Proposing a call: it takes the next proposal number, without approvals.
pub open spec fn propose_step(
    s: MultiSigState,
    caller: AccountId,
    target: AccountId,
    function: Seq<char>,
    args: Seq<Seq<u8>>,
) -> (MultiSigState, Result<u64, Error>) {
    if !s.signers.contains(caller) {
        (s, Err(Error::Unauthorized))
    } else if s.proposal_count == u64::MAX {
        (s, Err(Error::MathOverflow))
    } else {
        let id = (s.proposal_count + 1) as u64;
        (
            MultiSigState {
                proposal_count: id,
                proposals: s.proposals.push(
                    ProposalView { target, function, args, approvals: 0, executed: false },
                ),
                approvers: s.approvers.push(Seq::empty()),
                ..s
            },
            Ok(id),
        )
    }
}

/// Approving proposal `id`, once per signer.
pub open spec fn approve_step(s: MultiSigState, caller: AccountId, id: u64) -> (
    MultiSigState,
    Result<(), Error>,
) {
    if !s.signers.contains(caller) {
        (s, Err(Error::Unauthorized))
    } else if !proposal_exists(s, id) {
        (s, Err(Error::ProposalNotFound))
    } else if proposal(s, id).executed {
        (s, Err(Error::AlreadyExecuted))
    } else if approvers(s, id).contains(caller) {
        (s, Err(Error::AlreadyApproved))
    } else if proposal(s, id).approvals == u32::MAX {
        (s, Err(Error::MathOverflow))
    } else {
        let p = proposal(s, id);
        (
            MultiSigState {
                proposals: s.proposals.update(
                    id - 1,
                    ProposalView { approvals: (p.approvals + 1) as u32, ..p },
                ),
                approvers: s.approvers.update(id - 1, approvers(s, id).push(caller)),
                ..s
            },
            Ok(()),
        )
    }
}

/// Executing proposal `id` once it has at least the threshold of approvals:
/// it is marked executed and its call is handed to the host.
pub open spec fn execute_step(s: MultiSigState, caller: AccountId, id: u64) -> (
    MultiSigState,
    Result<InvocationView, Error>,
) {
    if !s.signers.contains(caller) {
        (s, Err(Error::Unauthorized))
    } else if !proposal_exists(s, id) {
        (s, Err(Error::ProposalNotFound))
    } else if proposal(s, id).executed {
        (s, Err(Error::AlreadyExecuted))
    } else if s.threshold is None {
        (s, Err(Error::NotInitialized))
    } else if proposal(s, id).approvals < s.threshold.unwrap() {
        (s, Err(Error::NotEnoughApprovals))
    } else {
        let p = proposal(s, id);
        (
            MultiSigState {
                proposals: s.proposals.update(id - 1, ProposalView { executed: true, ..p }),
                ..s
            },
            Ok(InvocationView { target: p.target, function: p.function, args: p.args }),
        )
    }
}

/// An entry point that changes the wallet's storage, with its arguments.
pub enum MultiSigOp {
    Init { signers: Seq<AccountId>, threshold: u32 },
    Propose { caller: AccountId, target: AccountId, function: Seq<char>, args: Seq<Seq<u8>> },
    Approve { caller: AccountId, id: u64 },
    Execute { caller: AccountId, id: u64 },
}

/// The storage after operation `op`, whether it succeeds or fails.
pub open spec fn apply_op(s: MultiSigState, op: MultiSigOp) -> MultiSigState {
    match op {
        MultiSigOp::Init { signers, threshold } => init_step(s, signers, threshold).0,
        MultiSigOp::Propose { caller, target, function, args } => propose_step(
            s,
            caller,
            target,
            function,
            args,
        ).0,
        MultiSigOp::Approve { caller, id } => approve_step(s, caller, id).0,
        MultiSigOp::Execute { caller, id } => execute_step(s, caller, id).0,
    }
}

/// The storage after the operations `ops`, in order.
pub open spec fn run_ops(s: MultiSigState, ops: Seq<MultiSigOp>) -> MultiSigState
    decreases ops.len(),
{
    if ops.len() == 0 {
        s
    } else {
        apply_op(run_ops(s, ops.drop_last()), ops.last())
    }
}

fn contains_id(v: &Vec<AccountId>, x: AccountId) -> (res: bool)
    ensures
        res == v@.contains(x),
{
    let mut i: usize = 0;
    while i < v.len()
        invariant
            i <= v.len(),
            forall|j: int| 0 <= j < i ==> v@[j] != x,
        decreases v.len() - i,
    {
        if v[i] == x {
            assert(v@[i as int] == x);
            return true;
        }
        i = i + 1;
    }
    false
}

// ---------------------------------------------------------------------------
// Event-creation checks
// ---------------------------------------------------------------------------

/// Whether the string with bytes `s` is non-empty and at most `max_bytes`
/// bytes long.
pub open spec fn bounded_string_ok(s: Seq<u8>, max_bytes: u32) -> bool {
    s.len() != 0 && s.len() <= max_bytes
}

/// Whether an event span from `start_date` to `end_date` is positive and at
/// most the longest allowed duration.
pub open spec fn event_span_ok(start_date: u64, end_date: u64) -> bool {
    let span = if end_date >= start_date {
        end_date - start_date
    } else {
        0
    };
    span != 0 && span <= MultiSigContract::MAX_EVENT_DURATION_SECS
}

/// Whether `start_date` is at most the allowed distance past `now` (the sum
/// saturating at `u64::MAX`).
pub open spec fn start_not_too_far_ok(start_date: u64, now: u64) -> bool {
    let latest = if now + MultiSigContract::MAX_EVENT_START_AHEAD_SECS > u64::MAX {
        u64::MAX as int
    } else {
        now + MultiSigContract::MAX_EVENT_START_AHEAD_SECS
    };
    start_date <= latest
}

/// The schedule check for a new event at time `now`.
pub open spec fn create_schedule_check(start_date: u64, end_date: u64, now: u64) -> Result<(), Error> {
    if start_date <= now {
        Err(Error::InvalidStartDate)
    } else if end_date <= start_date {
        Err(Error::InvalidEndDate)
    } else if !event_span_ok(start_date, end_date) || !start_not_too_far_ok(start_date, now) {
        Err(Error::EventScheduleOutOfRange)
    } else {
        Ok(())
    }
}

/// When an organizer that last created an event at `last` may create the
/// next (the sum saturating at `u64::MAX`).
pub open spec fn earliest_next_create(last: u64) -> int {
    if last + MultiSigContract::EVENT_CREATE_COOLDOWN_SECS > u64::MAX {
        u64::MAX as int
    } else {
        last + MultiSigContract::EVENT_CREATE_COOLDOWN_SECS
    }
}

/// The per-organizer check before creating an event: a cap on open events,
/// and, once the organizer has one, a cooldown since its last creation.
pub open spec fn organizer_check(open_count: u32, last_create: Option<u64>, now: u64) -> Result<
    (),
    Error,
> {
    if open_count >= MultiSigContract::MAX_ORGANIZER_OPEN_EVENTS {
        Err(Error::TooManyOrganizerEvents)
    } else if open_count > 0 && last_create is Some && now < earliest_next_create(
        last_create.unwrap(),
    ) {
        Err(Error::EventCreationRateLimited)
    } else {
        Ok(())
    }
}

// ---------------------------------------------------------------------------
// Laws
// ---------------------------------------------------------------------------

/// A call executes only when at least the threshold of distinct registered
/// signers approved it.
pub proof fn lemma_execution_needs_threshold_signers(s: MultiSigState, caller: AccountId, id: u64)
    requires
        state_inv(s),
        execute_step(s, caller, id).1 is Ok,
    ensures
        s.threshold is Some,
        approvers(s, id).len() >= s.threshold.unwrap(),
        no_duplicates(approvers(s, id)),
        forall|k: int| 0 <= k < approvers(s, id).len() ==> s.signers.contains(#[trigger] approvers(s, id)[k]),
{
    assert(s.proposals[id - 1].approvals == s.approvers[id - 1].len());
    assert(no_duplicates(s.approvers[id - 1]));
}

/// A proposal executes at most once: afterwards executing or approving it
/// fails with `AlreadyExecuted`.
pub proof fn lemma_proposal_executes_once(
    s: MultiSigState,
    caller: AccountId,
    id: u64,
    other: AccountId,
)
    requires
        execute_step(s, caller, id).1 is Ok,
    ensures
        ({
            let after = execute_step(s, caller, id).0;
            &&& proposal(after, id).executed
            &&& (after.signers.contains(other) ==> execute_step(after, other, id).1 == Err::<
                InvocationView,
                Error,
            >(Error::AlreadyExecuted))
            &&& (after.signers.contains(other) ==> approve_step(after, other, id).1 == Err::<
                (),
                Error,
            >(Error::AlreadyExecuted))
        }),
{
}

/// A signer executes an existing, not yet executed proposal of an initialized
/// wallet exactly when its approvals reach the threshold: at or above it the
/// proposal's own call is handed out and the proposal is marked executed,
/// below it the answer is `NotEnoughApprovals` and nothing changes.  So an
/// approval more never turns an execution into a refusal.
pub proof fn lemma_execution_at_threshold(s: MultiSigState, caller: AccountId, id: u64)
    requires
        s.signers.contains(caller),
        proposal_exists(s, id),
        !proposal(s, id).executed,
        s.threshold is Some,
    ensures
        ({
            let p = proposal(s, id);
            let (after, res) = execute_step(s, caller, id);
            &&& p.approvals >= s.threshold.unwrap() ==> {
                &&& res == Ok::<InvocationView, Error>(
                    InvocationView { target: p.target, function: p.function, args: p.args },
                )
                &&& proposal(after, id).executed
                &&& proposal(after, id).approvals == p.approvals
                &&& after.proposals.len() == s.proposals.len()
            }
            &&& p.approvals < s.threshold.unwrap() ==> res == Err::<InvocationView, Error>(
                Error::NotEnoughApprovals,
            ) && after == s
        }),
{
}

/// Proposing and approving.  A signer's proposal is taken, under the next
/// number, exactly while numbers remain; it starts without approvals and not
/// executed, with the call as given.  A signer approves an existing proposal
/// that is not executed exactly once: the first approval adds one to the
/// count (while the count can grow), any later one is refused with
/// `AlreadyApproved`.
pub proof fn lemma_propose_and_approve_rules(
    s: MultiSigState,
    caller: AccountId,
    target: AccountId,
    function: Seq<char>,
    args: Seq<Seq<u8>>,
    id: u64,
)
    requires
        state_inv(s),
        s.signers.contains(caller),
    ensures
        ({
            let (after, res) = propose_step(s, caller, target, function, args);
            &&& res is Ok <==> s.proposal_count < u64::MAX
            &&& res is Ok ==> {
                &&& res == Ok::<u64, Error>((s.proposal_count + 1) as u64)
                &&& proposal_exists(after, res->Ok_0)
                &&& proposal(after, res->Ok_0) == ProposalView {
                    target,
                    function,
                    args,
                    approvals: 0,
                    executed: false,
                }
            }
        }),
        proposal_exists(s, id) && !proposal(s, id).executed ==> ({
            let (after, res) = approve_step(s, caller, id);
            &&& approvers(s, id).contains(caller) ==> res == Err::<(), Error>(
                Error::AlreadyApproved,
            )
            &&& !approvers(s, id).contains(caller) && proposal(s, id).approvals < u32::MAX ==> {
                &&& res is Ok
                &&& proposal(after, id).approvals == proposal(s, id).approvals + 1
                &&& proposal(after, id).target == proposal(s, id).target
                &&& proposal(after, id).args == proposal(s, id).args
                &&& !proposal(after, id).executed
            }
        }),
{
}

/// One operation leaves an executed proposal as it is.
proof fn lemma_op_keeps_executed_proposal(s: MultiSigState, id: u64, op: MultiSigOp)
    requires
        proposal_exists(s, id),
        proposal(s, id).executed,
    ensures
        proposal_exists(apply_op(s, op), id),
        proposal(apply_op(s, op), id) == proposal(s, id),
{
}

/// An executed proposal stays executed, whatever operations follow: it keeps
/// its call, and executing or approving it again fails, with
/// `AlreadyExecuted` for a signer.
pub proof fn lemma_executed_proposal_stays_executed(
    s: MultiSigState,
    id: u64,
    ops: Seq<MultiSigOp>,
    caller: AccountId,
)
    requires
        proposal_exists(s, id),
        proposal(s, id).executed,
    ensures
        proposal_exists(run_ops(s, ops), id),
        proposal(run_ops(s, ops), id) == proposal(s, id),
        execute_step(run_ops(s, ops), caller, id).1 is Err,
        approve_step(run_ops(s, ops), caller, id).1 is Err,
        run_ops(s, ops).signers.contains(caller) ==> execute_step(run_ops(s, ops), caller, id).1
            == Err::<InvocationView, Error>(Error::AlreadyExecuted),
        run_ops(s, ops).signers.contains(caller) ==> approve_step(run_ops(s, ops), caller, id).1
            == Err::<(), Error>(Error::AlreadyExecuted),
    decreases ops.len(),
{
    if ops.len() > 0 {
        lemma_executed_proposal_stays_executed(s, id, ops.drop_last(), caller);
        lemma_op_keeps_executed_proposal(run_ops(s, ops.drop_last()), id, ops.last());
    }
}

/// A signer approves a proposal at most once, and an approval adds exactly
/// one to the count.
pub proof fn lemma_approve_once(s: MultiSigState, caller: AccountId, id: u64)
    requires
        state_inv(s),
        approve_step(s, caller, id).1 is Ok,
    ensures
        ({
            let after = approve_step(s, caller, id).0;
            &&& proposal(after, id).approvals == proposal(s, id).approvals + 1
            &&& approvers(after, id).contains(caller)
            &&& approve_step(after, caller, id).1 == Err::<(), Error>(Error::AlreadyApproved)
        }),
{
    let after = approve_step(s, caller, id).0;
    assert(approvers(after, id)[approvers(after, id).len() - 1] == caller);
}

/// Only registered signers act on the wallet: for anyone else proposing,
/// approving and executing fail with `Unauthorized` and change nothing.
pub proof fn lemma_only_signers_act(
    s: MultiSigState,
    caller: AccountId,
    target: AccountId,
    function: Seq<char>,
    args: Seq<Seq<u8>>,
    id: u64,
)
    requires
        !s.signers.contains(caller),
    ensures
        propose_step(s, caller, target, function, args) == (s, Err::<u64, Error>(Error::Unauthorized)),
        approve_step(s, caller, id) == (s, Err::<(), Error>(Error::Unauthorized)),
        execute_step(s, caller, id) == (s, Err::<InvocationView, Error>(Error::Unauthorized)),
{
}

/// Proposals are numbered one after another from 1; a new proposal is found
/// again under its number, as proposed, without approvals.
pub proof fn lemma_proposal_read_back(
    s: MultiSigState,
    caller: AccountId,
    target: AccountId,
    function: Seq<char>,
    args: Seq<Seq<u8>>,
)
    requires
        state_inv(s),
        propose_step(s, caller, target, function, args).1 is Ok,
    ensures
        ({
            let (after, res) = propose_step(s, caller, target, function, args);
            let id = res->Ok_0;
            &&& id == s.proposal_count + 1
            &&& proposal_exists(after, id)
            &&& proposal(after, id) == ProposalView {
                target,
                function,
                args,
                approvals: 0,
                executed: false,
            }
            &&& approvers(after, id) == Seq::<AccountId>::empty()
        }),
{
}

/// The wallet is initialized at most once.
pub proof fn lemma_init_once(
    s: MultiSigState,
    signers: Seq<AccountId>,
    threshold: u32,
    again: Seq<AccountId>,
    again_threshold: u32,
)
    requires
        init_step(s, signers, threshold).1 is Ok,
    ensures
        init_step(init_step(s, signers, threshold).0, again, again_threshold) == (
            init_step(s, signers, threshold).0,
            Err::<(), Error>(Error::AlreadyInitialized),
        ),
{
}

/// An accepted schedule starts after `now`, ends after it starts, lasts at
/// most the longest duration and starts at most the allowed distance ahead.
pub proof fn lemma_accepted_schedule(start_date: u64, end_date: u64, now: u64)
    requires
        create_schedule_check(start_date, end_date, now) is Ok,
    ensures
        now < start_date < end_date,
        end_date - start_date <= MultiSigContract::MAX_EVENT_DURATION_SECS,
        start_date <= now + MultiSigContract::MAX_EVENT_START_AHEAD_SECS,
{
}

/// The limits that the event checks apply.  No setting of the contract
/// fixes them: their values are this library's own choice.
impl MultiSigContract {
    /// Highest ticket price an event may set.
    pub const MAX_TICKET_PRICE: i128 = 1_000_000_000_000_000;

    /// Longest an event may last, in seconds (thirty days).
    pub const MAX_EVENT_DURATION_SECS: u64 = 2_592_000;

    /// How far ahead an event may start, in seconds (a year of 365 days).
    pub const MAX_EVENT_START_AHEAD_SECS: u64 = 31_536_000;

    /// How many open events an organizer may have.
    pub const MAX_ORGANIZER_OPEN_EVENTS: u32 = 50;

    /// Seconds an organizer waits between creating two events.
    pub const EVENT_CREATE_COOLDOWN_SECS: u64 = 60;

    /// Whether the storage is one that the wallet can reach.
    pub open spec fn wf(&self) -> bool {
        state_inv(self@)
    }

    /// The storage of a wallet that has not been initialized.
    pub fn new() -> (s: Self)
        ensures
            s@ == uninitialized(),
            s.wf(),
    {
        let s = MultiSigContract {
            threshold: None,
            proposal_count: 0,
            signers: HashSet::new(),
            proposals: Vec::new(),
            approvers: Vec::new(),
        };
        assert(s@.proposals =~= Seq::<ProposalView>::empty());
        assert(s@.approvers =~= Seq::<Seq<AccountId>>::empty());
        s
    }

    /// Initializes the multisig wallet with a list of signers and a required approval threshold.
    pub fn init(&mut self, signers: Vec<AccountId>, threshold: u32) -> (res: Result<(), Error>)
        requires
            old(self).wf(),
            signers.len() <= u32::MAX,
        ensures
            final(self).wf(),
            (final(self)@, res) == init_step(old(self)@, signers@, threshold),
    {
        if self.threshold.is_some() {
            return Err(Error::AlreadyInitialized);
        }
        if threshold == 0 || threshold > signers.len() as u32 {
            return Err(Error::InvalidThreshold);
        }
        let ghost s0 = self@;
        let mut i: usize = 0;
        proof {
            assert(signers@.take(0).to_set() =~= Set::<AccountId>::empty());
            assert(s0.signers.union(signers@.take(0).to_set()) =~= s0.signers);
        }
        while i < signers.len()
            invariant
                i <= signers.len(),
                self@ == (MultiSigState {
                    signers: s0.signers.union(signers@.take(i as int).to_set()),
                    ..s0
                }),
            decreases signers.len() - i,
        {
            let ghost before = self@;
            self.signers.insert(signers[i]);
            proof {
                let t0 = signers@.take(i as int);
                let t1 = signers@.take(i + 1);
                let x = signers@[i as int];
                assert forall|a: AccountId| t1.contains(a) <==> (t0.contains(a) || a == x) by {
                    if t1.contains(a) {
                        let k = choose|k: int| 0 <= k < t1.len() && t1[k] == a;
                        if k < i {
                            assert(t0[k] == a);
                        }
                    }
                    if t0.contains(a) {
                        let k = choose|k: int| 0 <= k < t0.len() && t0[k] == a;
                        assert(t1[k] == a);
                    }
                    if a == x {
                        assert(t1[i as int] == a);
                    }
                }
                assert(self@.signers =~= s0.signers.union(t1.to_set()));
                assert(self@.proposals == before.proposals);
            }
            i = i + 1;
        }
        assert(signers@.take(signers.len() as int) =~= signers@);
        self.threshold = Some(threshold);
        self.proposal_count = 0;
        Ok(())
    }

    /// Proposes a new transaction to be executed; returns its number.
    pub fn propose(&mut self, caller: AccountId, target: AccountId, function: String, args: Vec<Vec<u8>>) -> (res:
        Result<u64, Error>)
        requires
            old(self).wf(),
        ensures
            final(self).wf(),
            (final(self)@, res) == propose_step(old(self)@, caller, target, function@, bytes_view(args@)),
    {
        if !self.signers.contains(&caller) {
            return Err(Error::Unauthorized);
        }
        let new_count = match self.proposal_count.checked_add(1) {
            Some(c) => c,
            None => {
                return Err(Error::MathOverflow);
            },
        };
        let p = Proposal { target, function, args, approvals: 0, executed: false };
        let ghost pv = p@;
        self.proposals.push(p);
        self.approvers.push(Vec::new());
        self.proposal_count = new_count;
        proof {
            assert(self@.proposals =~= old(self)@.proposals.push(pv));
            assert(self@.approvers =~= old(self)@.approvers.push(Seq::empty()));
        }
        Ok(new_count)
    }

    /// Approves a specific proposal.
    pub fn approve(&mut self, caller: AccountId, proposal_id: u64) -> (res: Result<(), Error>)
        requires
            old(self).wf(),
        ensures
            final(self).wf(),
            (final(self)@, res) == approve_step(old(self)@, caller, proposal_id),
    {
        if !self.signers.contains(&caller) {
            return Err(Error::Unauthorized);
        }
        if proposal_id == 0 || proposal_id > self.proposals.len() as u64 {
            return Err(Error::ProposalNotFound);
        }
        let idx = (proposal_id - 1) as usize;
        if self.proposals[idx].executed {
            return Err(Error::AlreadyExecuted);
        }
        proof {
            assert(self@.approvers[idx as int] == self.approvers@[idx as int]@);
        }
        if contains_id(&self.approvers[idx], caller) {
            return Err(Error::AlreadyApproved);
        }
        let approvals = match self.proposals[idx].approvals.checked_add(1) {
            Some(a) => a,
            None => {
                return Err(Error::MathOverflow);
            },
        };
        let mut list: Vec<AccountId> = Vec::new();
        std::mem::swap(&mut list, &mut self.approvers[idx]);
        list.push(caller);
        self.approvers.set(idx, list);
        self.proposals[idx].approvals = approvals;
        proof {
            let s = old(self)@;
            let post = approve_step(s, caller, proposal_id).0;
            assert(self@.approvers =~= post.approvers);
            assert(self@.proposals =~= post.proposals);
            let a = post.approvers[idx as int];
            assert forall|x: int, y: int| 0 <= x < a.len() && 0 <= y < a.len() && x != y implies a[x]
                != a[y] by {
                if x == a.len() - 1 {
                    assert(a[y] == s.approvers[idx as int][y]);
                } else if y == a.len() - 1 {
                    assert(a[x] == s.approvers[idx as int][x]);
                }
            }
            assert forall|i: int, k: int|
                0 <= i < post.approvers.len() && 0 <= k < post.approvers[i].len() implies post.signers.contains(
                #[trigger] post.approvers[i][k],
            ) by {
                if i == idx && k < post.approvers[i].len() - 1 {
                    assert(post.approvers[i][k] == s.approvers[i][k]);
                }
            }
        }
        Ok(())
    }

    /// Executes a proposal if the threshold is met; returns the call for the
    /// host to invoke.
    pub fn execute(&mut self, caller: AccountId, proposal_id: u64) -> (res: Result<Invocation, Error>)
        requires
            old(self).wf(),
        ensures
            final(self).wf(),
            final(self)@ == execute_step(old(self)@, caller, proposal_id).0,
            match res {
                Ok(inv) => execute_step(old(self)@, caller, proposal_id).1 == Ok::<
                    InvocationView,
                    Error,
                >(inv@),
                Err(e) => execute_step(old(self)@, caller, proposal_id).1 == Err::<
                    InvocationView,
                    Error,
                >(e),
            },
    {
        if !self.signers.contains(&caller) {
            return Err(Error::Unauthorized);
        }
        if proposal_id == 0 || proposal_id > self.proposals.len() as u64 {
            return Err(Error::ProposalNotFound);
        }
        let idx = (proposal_id - 1) as usize;
        if self.proposals[idx].executed {
            return Err(Error::AlreadyExecuted);
        }
        let threshold = match self.threshold {
            Some(t) => t,
            None => {
                return Err(Error::NotInitialized);
            },
        };
        if self.proposals[idx].approvals < threshold {
            return Err(Error::NotEnoughApprovals);
        }
        let ghost before = self@;
        self.proposals[idx].executed = true;
        proof {
            assert(self@.proposals =~= before.proposals.update(
                idx as int,
                ProposalView { executed: true, ..before.proposals[idx as int] },
            ));
        }
        let inv = Invocation {
            target: self.proposals[idx].target,
            function: self.proposals[idx].function.clone(),
            args: copy_byte_strings(&self.proposals[idx].args),
        };
        Ok(inv)
    }

    /// The proposal with number `proposal_id`, if there is one.
    pub fn get_proposal(&self, proposal_id: u64) -> (res: Option<&Proposal>)
        ensures
            match res {
                Some(p) => proposal_exists(self@, proposal_id) && p@ == proposal(self@, proposal_id),
                None => !proposal_exists(self@, proposal_id),
            },
    {
        if proposal_id == 0 || proposal_id > self.proposals.len() as u64 {
            None
        } else {
            Some(&self.proposals[(proposal_id - 1) as usize])
        }
    }

    /// Whether `address` is a registered signer.
    pub fn is_signer(&self, address: AccountId) -> (res: bool)
        ensures
            res == self@.signers.contains(address),
    {
        self.signers.contains(&address)
    }

    /// The number of approvals a call needs, once initialized.
    pub fn threshold(&self) -> (res: Option<u32>)
        ensures
            res == self@.threshold,
    {
        self.threshold
    }

    /// Checks that the string with bytes `s` is non-empty and at most
    /// `max_bytes` bytes long.
    pub fn validate_bounded_string(s: &[u8], max_bytes: u32) -> (res: Result<(), Error>)
        ensures
            res == (if bounded_string_ok(s@, max_bytes) {
                Ok::<(), Error>(())
            } else {
                Err(Error::InvalidStringInput)
            }),
    {
        if s.len() == 0 || s.len() > max_bytes as usize {
            return Err(Error::InvalidStringInput);
        }
        Ok(())
    }

    /// Checks that `price` is at most [`Self::MAX_TICKET_PRICE`].
    pub fn validate_ticket_price(price: i128) -> (res: Result<(), Error>)
        ensures
            res == (if price <= Self::MAX_TICKET_PRICE {
                Ok::<(), Error>(())
            } else {
                Err(Error::TicketPriceOutOfRange)
            }),
    {
        if price > Self::MAX_TICKET_PRICE {
            return Err(Error::TicketPriceOutOfRange);
        }
        Ok(())
    }

    /// Checks the schedule of a new event at time `now`: it starts in the
    /// future, ends after it starts, lasts at most the longest duration and
    /// starts at most the allowed distance ahead.
    pub fn validate_create_schedule(start_date: u64, end_date: u64, now: u64) -> (res: Result<
        (),
        Error,
    >)
        ensures
            res == create_schedule_check(start_date, end_date, now),
    {
        if start_date <= now {
            return Err(Error::InvalidStartDate);
        }
        if end_date <= start_date {
            return Err(Error::InvalidEndDate);
        }
        Self::validate_event_span(start_date, end_date)?;
        Self::validate_start_not_too_far(start_date, now)?;
        Ok(())
    }

    /// Checks that the span from `start_date` to `end_date` is positive and
    /// at most [`Self::MAX_EVENT_DURATION_SECS`].
    pub fn validate_event_span(start_date: u64, end_date: u64) -> (res: Result<(), Error>)
        ensures
            res == (if event_span_ok(start_date, end_date) {
                Ok::<(), Error>(())
            } else {
                Err(Error::EventScheduleOutOfRange)
            }),
    {
        let span = end_date.saturating_sub(start_date);
        if span == 0 || span > Self::MAX_EVENT_DURATION_SECS {
            return Err(Error::EventScheduleOutOfRange);
        }
        Ok(())
    }

    /// Checks that `start_date` is at most
    /// [`Self::MAX_EVENT_START_AHEAD_SECS`] past `now`.
    pub fn validate_start_not_too_far(start_date: u64, now: u64) -> (res: Result<(), Error>)
        ensures
            res == (if start_not_too_far_ok(start_date, now) {
                Ok::<(), Error>(())
            } else {
                Err(Error::EventScheduleOutOfRange)
            }),
    {
        let latest_start = now.saturating_add(Self::MAX_EVENT_START_AHEAD_SECS);
        if start_date > latest_start {
            return Err(Error::EventScheduleOutOfRange);
        }
        Ok(())
    }

    /// Checks an organizer's limits before it creates an event at `now`:
    /// `open_count` is how many open events it has, `last_create` when it
    /// last created one, if recorded.
    pub fn enforce_organizer_limits_and_rate(
        open_count: u32,
        last_create: Option<u64>,
        now: u64,
    ) -> (res: Result<(), Error>)
        ensures
            res == organizer_check(open_count, last_create, now),
    {
        if open_count >= Self::MAX_ORGANIZER_OPEN_EVENTS {
            return Err(Error::TooManyOrganizerEvents);
        }
        if open_count > 0 {
            if let Some(last) = last_create {
                let earliest = last.saturating_add(Self::EVENT_CREATE_COOLDOWN_SECS);
                if now < earliest {
                    return Err(Error::EventCreationRateLimited);
                }
            }
        }
        Ok(())
    }
}

} // verus!
