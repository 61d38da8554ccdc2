//! The governance state machine: an electorate votes on densely numbered
//! proposals; quorum and simple majority decide them; passed member-mutation
//! proposals act on the electorate itself.

use vstd::prelude::*;

use crate::address::addr_is;
use crate::address::find_addr;
use crate::address::unique_addrs;
use crate::address::without_addr;
use crate::address::Address;
use crate::seqs::count_where;
use crate::seqs::discard;
use crate::seqs::lemma_count_where_implies;
use crate::seqs::lemma_count_where_push;
use crate::seqs::lemma_count_where_split;
use crate::seqs::lemma_count_where_zero;
use crate::seqs::lemma_discard_single;

verus! {

/// Everything that can go wrong in the governance state machine.
#[derive(Clone, Copy, Debug, PartialEq, Eq, Structural)]
pub enum Error {
    /// The contract has not been initialized.
    NotInitialized,
    /// The contract is already initialized.
    AlreadyInitialized,
    /// The caller does not have permission.
    Unauthorized,
    /// No proposal carries the given id.
    ProposalNotFound,
    /// The voter has already voted on this proposal.
    AlreadyVoted,
    /// The voting period has closed for this proposal.
    VotingClosed,
    /// The proposal has already been executed.
    AlreadyExecuted,
    /// Quorum has not been reached.
    QuorumNotMet,
    /// The proposal did not pass.
    ProposalRejected,
    /// The proposal parameters are invalid.
    InvalidProposal,
    /// The caller is not a registered member.
    NotAMember,
    /// The voting period is still active.
    VotingStillActive,
    /// Checked arithmetic overflowed.
    Overflow,
    /// A storage operation failed.
    StorageError,
}

/// What a proposal asks for.
#[derive(Clone, Copy, Debug, PartialEq, Eq, Structural)]
pub enum ProposalAction {
    /// Request funds from the treasury.
    Funding,
    /// Change a governance parameter.
    PolicyChange,
    /// Add a new member to the electorate.
    AddMember,
    /// Remove a member from the electorate.
    RemoveMember,
    /// A general-purpose proposal.
    General,
}

/// Where a proposal stands in its lifecycle.
#[derive(Clone, Copy, Debug, PartialEq, Eq, Structural)]
pub enum ProposalStatus {
    /// Accepting votes.
    Active,
    /// Passed and awaiting execution.
    Passed,
    /// Rejected by the vote.
    Rejected,
    /// Executed.
    Executed,
    /// Expired without reaching quorum.
    Expired,
}

/// The lifecycle order: a status only ever moves forward along
/// `Active -> {Passed, Rejected, Expired}` and `Passed -> Executed`.
pub open spec fn status_le(a: ProposalStatus, b: ProposalStatus) -> bool {
    ||| a == b
    ||| (a is Active)
    ||| (a is Passed && b is Executed)
}

/// A governance proposal.
#[derive(Clone, Debug, PartialEq, Eq)]
pub struct Proposal {
    /// Unique identifier; ids are dense and start at 1.
    pub id: u64,
    /// Title; never empty.
    pub title: String,
    /// Short description; never empty.
    pub description: String,
    /// What the proposal asks for.
    pub action: ProposalAction,
    /// Who created the proposal.
    pub proposer: Address,
    /// Votes in favor.
    pub votes_for: usize,
    /// Votes against.
    pub votes_against: usize,
    /// All votes cast.
    pub total_votes: usize,
    /// Where the proposal stands.
    pub status: ProposalStatus,
    /// Ledger sequence when voting opened.
    pub created_at: u32,
    /// Ledger sequence when voting closes.
    pub ends_at: u32,
    /// Amount requested, for funding proposals.
    pub amount: i128,
    /// Target address, for member add/remove proposals.
    pub target: Address,
}

/// One cast vote; its existence blocks a second vote by the same member.
#[derive(Clone, Copy, Debug, PartialEq, Eq, Structural)]
pub struct VoteRecord {
    pub proposal_id: u64,
    pub voter: Address,
    pub vote_for: bool,
}

/// Snapshot of the governance configuration.
#[derive(Clone, Copy, Debug, PartialEq, Eq, Structural)]
pub struct GovConfig {
    pub admin: Address,
    pub member_count: usize,
    pub quorum_percent: u32,
    pub voting_period: u32,
    pub proposal_count: u64,
}

/// The events the machine emits, in emission order.
#[derive(Clone, Copy, Debug, PartialEq, Eq, Structural)]
pub enum GovEvent {
    Init { admin: Address, member_count: usize, quorum_percent: u32 },
    Propose { id: u64, proposer: Address, ends_at: u32, target: Address, amount: i128 },
    Vote { id: u64, voter: Address, vote_for: bool },
    Finalize { id: u64, status: ProposalStatus },
    Exec { id: u64, executor: Address },
    AdminTransfer { prev_admin: Address, new_admin: Address },
    Quorum { quorum_percent: u32 },
}

/// Holds of a vote cast on the given proposal.
pub open spec fn vote_id_is(id: u64) -> spec_fn(VoteRecord) -> bool {
    |v: VoteRecord| v.proposal_id == id
}

/// Holds of a vote cast on the given proposal by the given voter.
pub open spec fn vote_pair_is(id: u64, voter: Address) -> spec_fn(VoteRecord) -> bool {
    |v: VoteRecord| v.proposal_id == id && v.voter == voter
}

/// Holds of a vote in favor of the given proposal.
pub open spec fn vote_for_is(id: u64) -> spec_fn(VoteRecord) -> bool {
    |v: VoteRecord| v.proposal_id == id && v.vote_for
}

/// Holds of a vote against the given proposal.
pub open spec fn vote_against_is(id: u64) -> spec_fn(VoteRecord) -> bool {
    |v: VoteRecord| v.proposal_id == id && !v.vote_for
}

/// The membership list after adding `a`: unchanged if already present,
/// appended otherwise.
pub open spec fn add_member_seq(s: Seq<Address>, a: Address) -> Seq<Address> {
    if s.contains(a) {
        s
    } else {
        s.push(a)
    }
}

/// The proposal at book index `i` is internally consistent: dense id, tallies
/// that match the receipts, an ordered voting window, and a non-negative
/// amount.
pub open spec fn proposal_wf_at(proposals: Seq<Proposal>, votes: Seq<VoteRecord>, i: int) -> bool
    recommends
        0 <= i < proposals.len(),
{
    let p = proposals[i];
    &&& p.id == i + 1
    &&& p.votes_for == count_where(votes, vote_for_is(p.id))
    &&& p.votes_against == count_where(votes, vote_against_is(p.id))
    &&& p.total_votes == count_where(votes, vote_id_is(p.id))
    &&& p.created_at <= p.ends_at
    &&& p.amount >= 0
}

/// The governance state machine: an electorate, a quorum rule, and a densely
/// numbered proposal book with one vote receipt per member and proposal.
pub struct GovernanceContract {
    pub initialized: bool,
    pub admin: Address,
    pub members: Vec<Address>,
    pub quorum_percent: u32,
    pub voting_period: u32,
    pub proposal_counter: u64,
    pub proposals: Vec<Proposal>,
    pub votes: Vec<VoteRecord>,
    pub events: Vec<GovEvent>,
}

impl GovernanceContract {
    /// A receipt exists for this proposal and voter.
    pub open spec fn has_receipt(self, id: u64, voter: Address) -> bool {
        count_where(self.votes@, vote_pair_is(id, voter)) != 0
    }

    /// The minimum number of votes for a proposal to be eligible to pass.
    pub open spec fn quorum_threshold(self) -> int {
        (self.members@.len() * self.quorum_percent) / 100
    }

    /// The verdict `finalize` reaches once the voting period has ended.
    pub open spec fn verdict(self, p: Proposal) -> ProposalStatus {
        if p.total_votes < self.quorum_threshold() {
            ProposalStatus::Expired
        } else if p.votes_for > p.votes_against {
            ProposalStatus::Passed
        } else {
            ProposalStatus::Rejected
        }
    }

    /// Well-formedness: a duplicate-free electorate, a valid quorum, dense
    /// proposal ids, tallies that match the receipts, receipts only for
    /// existing proposals, and at most one receipt per proposal and voter.
    pub open spec fn wf(self) -> bool {
        &&& unique_addrs(self.members@)
        &&& if self.initialized {
            &&& 1 <= self.quorum_percent <= 100
            &&& self.proposal_counter == self.proposals@.len()
            &&& forall|i: int|
                0 <= i < self.proposals@.len() ==> proposal_wf_at(self.proposals@, self.votes@, i)
            &&& forall|k: int|
                0 <= k < self.votes@.len() ==> 1 <= (#[trigger] self.votes@[k]).proposal_id
                    <= self.proposals@.len()
            &&& forall|id: u64, a: Address| count_where(self.votes@, vote_pair_is(id, a)) <= 1
        } else {
            &&& self.members@.len() == 0
            &&& self.proposals@.len() == 0
            &&& self.votes@.len() == 0
            &&& self.events@.len() == 0
            &&& self.proposal_counter == 0
        }
    }

    /// A fresh, uninitialized machine.
    pub fn new() -> (c: Self)
        ensures
            c.wf(),
            !c.initialized,
            c.events@.len() == 0,
    {
        let c = GovernanceContract {
            initialized: false,
            admin: Address { id: 0 },
            members: Vec::new(),
            quorum_percent: 0,
            voting_period: 0,
            proposal_counter: 0,
            proposals: Vec::new(),
            votes: Vec::new(),
            events: Vec::new(),
        };
        proof {
            assert forall|a: Address| count_where(c.members@, addr_is(a)) <= 1 by {
                crate::seqs::lemma_count_where_le_len(c.members@, addr_is(a));
            }
            assert forall|id: u64, a: Address| count_where(c.votes@, vote_pair_is(id, a)) <= 1 by {
                crate::seqs::lemma_count_where_le_len(c.votes@, vote_pair_is(id, a));
            }
        }
        c
    }

    pub open spec fn initialize_result(pre: Self, quorum_percent: u32) -> Result<(), Error> {
        if pre.initialized {
            Err(Error::AlreadyInitialized)
        } else if quorum_percent < 1 || quorum_percent > 100 {
            Err(Error::InvalidProposal)
        } else {
            Ok(())
        }
    }

    /// On success the electorate, the quorum rule and the voting period are
    /// stored, the proposal book is empty, and the init event is logged.
    pub open spec fn initialize_ok(
        pre: Self,
        post: Self,
        admin: Address,
        members: Seq<Address>,
        quorum_percent: u32,
        voting_period: u32,
    ) -> bool {
        &&& post.initialized
        &&& post.admin == admin
        &&& post.members@ == members
        &&& post.quorum_percent == quorum_percent
        &&& post.voting_period == voting_period
        &&& post.proposal_counter == 0
        &&& post.proposals@.len() == 0
        &&& post.votes@.len() == 0
        &&& post.events@ == pre.events@.push(
            GovEvent::Init { admin, member_count: members.len() as usize, quorum_percent },
        )
    }

    /// Initialize the machine. The host has already authenticated `admin`;
    /// the electorate must be duplicate-free.
    pub fn initialize(
        &mut self,
        admin: Address,
        members: Vec<Address>,
        quorum_percent: u32,
        voting_period: u32,
    ) -> (r: Result<(), Error>)
        requires
            old(self).wf(),
            unique_addrs(members@),
        ensures
            final(self).wf(),
            r == Self::initialize_result(*old(self), quorum_percent),
            r is Ok ==> Self::initialize_ok(
                *old(self),
                *final(self),
                admin,
                members@,
                quorum_percent,
                voting_period,
            ),
            r is Err ==> *final(self) == *old(self),
    {
        if self.initialized {
            return Err(Error::AlreadyInitialized);
        }
        if quorum_percent < 1 || quorum_percent > 100 {
            return Err(Error::InvalidProposal);
        }
        self.initialized = true;
        self.admin = admin;
        self.members = members;
        self.quorum_percent = quorum_percent;
        self.voting_period = voting_period;
        self.proposal_counter = 0;
        self.events.push(
            GovEvent::Init { admin, member_count: self.members.len(), quorum_percent },
        );
        proof {
            assert forall|id: u64, a: Address| count_where(
                self.votes@,
                vote_pair_is(id, a),
            ) <= 1 by {
                crate::seqs::lemma_count_where_le_len(self.votes@, vote_pair_is(id, a));
            }
        }
        Ok(())
    }

    /// Exactly when `create_proposal` succeeds: the machine is initialized,
    /// the proposer is a member, title and description are non-empty, the
    /// amount is non-negative, member-mutation proposals name a non-zero
    /// target, and neither the id counter nor the voting window overflows.
    pub open spec fn create_proposal_result(
        pre: Self,
        proposer: Address,
        title: Seq<char>,
        description: Seq<char>,
        action: ProposalAction,
        amount: i128,
        target: Address,
        current_ledger: u32,
    ) -> Result<u64, Error> {
        if !pre.initialized {
            Err(Error::NotInitialized)
        } else if !pre.members@.contains(proposer) {
            Err(Error::NotAMember)
        } else if title.len() == 0 {
            Err(Error::InvalidProposal)
        } else if description.len() == 0 {
            Err(Error::InvalidProposal)
        } else if amount < 0 {
            Err(Error::InvalidProposal)
        } else if (action is AddMember || action is RemoveMember) && target.is_zero() {
            Err(Error::InvalidProposal)
        } else if pre.proposal_counter == u64::MAX {
            Err(Error::Overflow)
        } else if current_ledger + pre.voting_period > u32::MAX {
            Err(Error::Overflow)
        } else {
            Ok((pre.proposal_counter + 1) as u64)
        }
    }

    /// On success the proposal enters the book as Active with fresh tallies,
    /// the counter advances by one, and the propose event is logged.
    pub open spec fn create_proposal_ok(
        pre: Self,
        post: Self,
        proposer: Address,
        title: String,
        description: String,
        action: ProposalAction,
        amount: i128,
        target: Address,
        current_ledger: u32,
        id: u64,
    ) -> bool {
        let ends_at = (current_ledger + pre.voting_period) as u32;
        let p = Proposal {
            id,
            title,
            description,
            action,
            proposer,
            votes_for: 0,
            votes_against: 0,
            total_votes: 0,
            status: ProposalStatus::Active,
            created_at: current_ledger,
            ends_at,
            amount,
            target,
        };
        &&& id == pre.proposal_counter + 1
        &&& post == (Self {
            proposal_counter: id,
            proposals: post.proposals,
            events: post.events,
            ..pre
        })
        &&& post.proposals@ == pre.proposals@.push(p)
        &&& post.events@ == pre.events@.push(
            GovEvent::Propose { id, proposer, ends_at, target, amount },
        )
    }

    /// Create a proposal on behalf of the authenticated `proposer`; `current_ledger`
    /// is the host's ledger sequence, which fixes the voting window.
    pub fn create_proposal(
        &mut self,
        proposer: Address,
        title: String,
        description: String,
        action: ProposalAction,
        amount: i128,
        target: Address,
        current_ledger: u32,
    ) -> (r: Result<u64, Error>)
        requires
            old(self).wf(),
        ensures
            final(self).wf(),
            r == Self::create_proposal_result(
                *old(self),
                proposer,
                title@,
                description@,
                action,
                amount,
                target,
                current_ledger,
            ),
            r matches Ok(id) ==> Self::create_proposal_ok(
                *old(self),
                *final(self),
                proposer,
                title,
                description,
                action,
                amount,
                target,
                current_ledger,
                id,
            ),
            r is Err ==> *final(self) == *old(self),
    {
        if !self.initialized {
            return Err(Error::NotInitialized);
        }
        match find_addr(&self.members, proposer) {
            Some(_) => {},
            None => {
                return Err(Error::NotAMember);
            },
        }
        if title.as_str().is_empty() {
            return Err(Error::InvalidProposal);
        }
        if description.as_str().is_empty() {
            return Err(Error::InvalidProposal);
        }
        if amount < 0 {
            return Err(Error::InvalidProposal);
        }
        let member_action = match action {
            ProposalAction::AddMember | ProposalAction::RemoveMember => true,
            _ => false,
        };
        if member_action && target.id == 0 {
            return Err(Error::InvalidProposal);
        }
        if self.proposal_counter == u64::MAX {
            return Err(Error::Overflow);
        }
        let id = self.proposal_counter + 1;
        if self.voting_period > u32::MAX - current_ledger {
            return Err(Error::Overflow);
        }
        let ends_at = current_ledger + self.voting_period;
        let ghost pre = *self;
        let proposal = Proposal {
            id,
            title,
            description,
            action,
            proposer,
            votes_for: 0,
            votes_against: 0,
            total_votes: 0,
            status: ProposalStatus::Active,
            created_at: current_ledger,
            ends_at,
            amount,
            target,
        };
        self.proposal_counter = id;
        self.proposals.push(proposal);
        self.events.push(GovEvent::Propose { id, proposer, ends_at, target, amount });
        proof {
            let ps = pre.proposals@;
            let vs = pre.votes@;
            // No receipt mentions the fresh id, so its tallies start at zero.
            assert forall|k: int| 0 <= k < vs.len() implies !vote_id_is(id)(vs[k]) by {
                assert(vs[k].proposal_id <= ps.len());
            }
            lemma_count_where_zero(vs, vote_id_is(id));
            lemma_count_where_implies(vs, vote_for_is(id), vote_id_is(id));
            lemma_count_where_implies(vs, vote_against_is(id), vote_id_is(id));
            assert forall|i: int| 0 <= i < self.proposals@.len() implies proposal_wf_at(
                self.proposals@,
                self.votes@,
                i,
            ) by {
                if i < ps.len() {
                    assert(proposal_wf_at(ps, vs, i));
                    assert(self.proposals@[i] == ps[i]);
                } else {
                    assert(self.proposals@[i] == proposal);
                }
            }
        }
        Ok(id)
    }

    /// Exactly when `vote` succeeds: the machine is initialized, the voter is
    /// a member who has not voted on this proposal, the proposal exists and is
    /// Active, and the voting window is still open.
    pub open spec fn vote_result(
        pre: Self,
        voter: Address,
        proposal_id: u64,
        current_ledger: u32,
    ) -> Result<(), Error> {
        if !pre.initialized {
            Err(Error::NotInitialized)
        } else if !pre.members@.contains(voter) {
            Err(Error::NotAMember)
        } else if pre.has_receipt(proposal_id, voter) {
            Err(Error::AlreadyVoted)
        } else if !(1 <= proposal_id <= pre.proposals@.len()) {
            Err(Error::ProposalNotFound)
        } else {
            let p = pre.proposals@[proposal_id - 1];
            if !(p.status is Active) {
                Err(Error::VotingClosed)
            } else if current_ledger > p.ends_at {
                Err(Error::VotingClosed)
            } else if p.total_votes == usize::MAX {
                Err(Error::Overflow)
            } else {
                Ok(())
            }
        }
    }

    /// On success exactly one tally of the proposal grows by one, the receipt
    /// is recorded, and the vote event is logged.
    pub open spec fn vote_ok(
        pre: Self,
        post: Self,
        voter: Address,
        proposal_id: u64,
        vote_for: bool,
        current_ledger: u32,
    ) -> bool {
        let idx = proposal_id - 1;
        let p = pre.proposals@[idx];
        let q = Proposal {
            votes_for: (p.votes_for + if vote_for {
                1int
            } else {
                0int
            }) as usize,
            votes_against: (p.votes_against + if vote_for {
                0int
            } else {
                1int
            }) as usize,
            total_votes: (p.total_votes + 1) as usize,
            ..p
        };
        &&& post == (Self { proposals: post.proposals, votes: post.votes, events: post.events, ..pre })
        &&& post.proposals@ == pre.proposals@.update(idx, q)
        &&& post.votes@ == pre.votes@.push(VoteRecord { proposal_id, voter, vote_for })
        &&& post.events@ == pre.events@.push(GovEvent::Vote { id: proposal_id, voter, vote_for })
    }

    /// Cast a vote on an Active proposal on behalf of the authenticated
    /// `voter`.
    pub fn vote(&mut self, voter: Address, proposal_id: u64, vote_for: bool, current_ledger: u32) -> (r:
        Result<(), Error>)
        requires
            old(self).wf(),
        ensures
            final(self).wf(),
            r == Self::vote_result(*old(self), voter, proposal_id, current_ledger),
            r is Ok ==> Self::vote_ok(
                *old(self),
                *final(self),
                voter,
                proposal_id,
                vote_for,
                current_ledger,
            ),
            r is Err ==> *final(self) == *old(self),
            final(self).proposals@.len() == old(self).proposals@.len() || r is Err,
            forall|i: int|
                0 <= i < old(self).proposals@.len() && i < final(self).proposals@.len()
                    ==> status_le(
                    old(self).proposals@[i].status,
                    (#[trigger] final(self).proposals@[i]).status,
                ),
    {
        if !self.initialized {
            return Err(Error::NotInitialized);
        }
        match find_addr(&self.members, voter) {
            Some(_) => {},
            None => {
                return Err(Error::NotAMember);
            },
        }
        if self.has_voted(proposal_id, voter) {
            return Err(Error::AlreadyVoted);
        }
        if !(proposal_id >= 1 && proposal_id <= self.proposals.len() as u64) {
            return Err(Error::ProposalNotFound);
        }
        let idx = (proposal_id - 1) as usize;
        let active = {
            let p = &self.proposals[idx];
            match p.status {
                ProposalStatus::Active => true,
                _ => false,
            }
        };
        if !active {
            return Err(Error::VotingClosed);
        }
        let ends_at = {
            let p = &self.proposals[idx];
            p.ends_at
        };
        if current_ledger > ends_at {
            return Err(Error::VotingClosed);
        }
        let total = {
            let p = &self.proposals[idx];
            p.total_votes
        };
        if total == usize::MAX {
            return Err(Error::Overflow);
        }
        let ghost pre = *self;
        proof {
            assert(proposal_wf_at(pre.proposals@, pre.votes@, idx as int));
            lemma_count_where_implies(
                pre.votes@,
                vote_for_is(proposal_id),
                vote_id_is(proposal_id),
            );
            lemma_count_where_implies(
                pre.votes@,
                vote_against_is(proposal_id),
                vote_id_is(proposal_id),
            );
        }
        let p = &mut self.proposals[idx];
        if vote_for {
            p.votes_for = p.votes_for + 1;
        } else {
            p.votes_against = p.votes_against + 1;
        }
        p.total_votes = p.total_votes + 1;
        let rec = VoteRecord { proposal_id, voter, vote_for };
        self.votes.push(rec);
        self.events.push(GovEvent::Vote { id: proposal_id, voter, vote_for });
        proof {
            let ps = pre.proposals@;
            let vs = pre.votes@;
            let ps2 = self.proposals@;
            let vs2 = self.votes@;
            assert(vs2 == vs.push(rec));
            assert forall|id2: u64, a: Address| count_where(vs2, vote_pair_is(id2, a)) <= 1 by {
                lemma_count_where_push(vs, rec, vote_pair_is(id2, a));
            }
            assert forall|i: int| 0 <= i < ps2.len() implies proposal_wf_at(ps2, vs2, i) by {
                assert(proposal_wf_at(ps, vs, i));
                assert(proposal_wf_at(ps, vs, idx as int));
                let pid = ps2[i].id;
                lemma_count_where_push(vs, rec, vote_for_is(pid));
                lemma_count_where_push(vs, rec, vote_against_is(pid));
                lemma_count_where_push(vs, rec, vote_id_is(pid));
            }
        }
        Ok(())
    }

    /// Exactly when `finalize` succeeds: the machine is initialized, the
    /// caller is a member, the proposal exists and is Active, and the voting
    /// window has closed.
    pub open spec fn finalize_result(
        pre: Self,
        caller: Address,
        proposal_id: u64,
        current_ledger: u32,
    ) -> Result<ProposalStatus, Error> {
        if !pre.initialized {
            Err(Error::NotInitialized)
        } else if !pre.members@.contains(caller) {
            Err(Error::NotAMember)
        } else if !(1 <= proposal_id <= pre.proposals@.len()) {
            Err(Error::ProposalNotFound)
        } else {
            let p = pre.proposals@[proposal_id - 1];
            if !(p.status is Active) {
                Err(Error::VotingClosed)
            } else if current_ledger <= p.ends_at {
                Err(Error::VotingStillActive)
            } else {
                Ok(pre.verdict(p))
            }
        }
    }

    /// On success only the proposal's status moves, to the verdict the quorum
    /// rule and the tallies dictate, and the finalize event is logged.
    pub open spec fn finalize_ok(pre: Self, post: Self, proposal_id: u64, st: ProposalStatus) -> bool {
        let idx = proposal_id - 1;
        let p = pre.proposals@[idx];
        &&& post == (Self { proposals: post.proposals, events: post.events, ..pre })
        &&& post.proposals@ == pre.proposals@.update(idx, Proposal { status: st, ..p })
        &&& post.events@ == pre.events@.push(GovEvent::Finalize { id: proposal_id, status: st })
    }

    /// Decide an Active proposal whose voting window has closed: Expired
    /// below quorum, otherwise Passed or Rejected by simple majority.
    pub fn finalize(&mut self, caller: Address, proposal_id: u64, current_ledger: u32) -> (r: Result<
        ProposalStatus,
        Error,
    >)
        requires
            old(self).wf(),
        ensures
            final(self).wf(),
            r == Self::finalize_result(*old(self), caller, proposal_id, current_ledger),
            r matches Ok(st) ==> Self::finalize_ok(*old(self), *final(self), proposal_id, st),
            r is Err ==> *final(self) == *old(self),
            forall|i: int|
                0 <= i < old(self).proposals@.len() && i < final(self).proposals@.len()
                    ==> status_le(
                    old(self).proposals@[i].status,
                    (#[trigger] final(self).proposals@[i]).status,
                ),
    {
        if !self.initialized {
            return Err(Error::NotInitialized);
        }
        match find_addr(&self.members, caller) {
            Some(_) => {},
            None => {
                return Err(Error::NotAMember);
            },
        }
        if !(proposal_id >= 1 && proposal_id <= self.proposals.len() as u64) {
            return Err(Error::ProposalNotFound);
        }
        let idx = (proposal_id - 1) as usize;
        let (active, ends_at, total, vf, va) = {
            let p = &self.proposals[idx];
            let a = match p.status {
                ProposalStatus::Active => true,
                _ => false,
            };
            (a, p.ends_at, p.total_votes, p.votes_for, p.votes_against)
        };
        if !active {
            return Err(Error::VotingClosed);
        }
        if current_ledger <= ends_at {
            return Err(Error::VotingStillActive);
        }
        let member_count: u128 = self.members.len() as u128;
        let quorum: u128 = self.quorum_percent as u128;
        proof {
            assert(member_count * quorum <= 0xFFFF_FFFF_FFFF_FFFFu128 * 100) by (nonlinear_arith)
                requires
                    member_count <= 0xFFFF_FFFF_FFFF_FFFFu128,
                    quorum <= 100,
            ;
        }
        let threshold: u128 = member_count * quorum / 100;
        let st = if (total as u128) < threshold {
            ProposalStatus::Expired
        } else if vf > va {
            ProposalStatus::Passed
        } else {
            ProposalStatus::Rejected
        };
        let ghost pre = *self;
        let p = &mut self.proposals[idx];
        p.status = st;
        self.events.push(GovEvent::Finalize { id: proposal_id, status: st });
        proof {
            let ps = pre.proposals@;
            let vs = pre.votes@;
            assert forall|i: int| 0 <= i < self.proposals@.len() implies proposal_wf_at(
                self.proposals@,
                self.votes@,
                i,
            ) by {
                assert(proposal_wf_at(ps, vs, i));
            }
        }
        Ok(st)
    }

    /// Exactly when `execute_proposal` succeeds: the machine is initialized,
    /// the proposal exists and has Passed, and the executor is the admin or
    /// the proposer.
    pub open spec fn execute_proposal_result(pre: Self, executor: Address, proposal_id: u64) -> Result<
        (),
        Error,
    > {
        if !pre.initialized {
            Err(Error::NotInitialized)
        } else if !(1 <= proposal_id <= pre.proposals@.len()) {
            Err(Error::ProposalNotFound)
        } else {
            let p = pre.proposals@[proposal_id - 1];
            if !(p.status is Passed) {
                Err(Error::ProposalRejected)
            } else if executor != pre.admin && executor != p.proposer {
                Err(Error::Unauthorized)
            } else {
                Ok(())
            }
        }
    }

    /// On success the proposal becomes Executed; an AddMember proposal
    /// appends its target to the electorate unless already present, a
    /// RemoveMember proposal removes it preserving order, and the exec event
    /// is logged.
    pub open spec fn execute_proposal_ok(
        pre: Self,
        post: Self,
        executor: Address,
        proposal_id: u64,
    ) -> bool {
        let idx = proposal_id - 1;
        let p = pre.proposals@[idx];
        &&& post == (Self {
            members: post.members,
            proposals: post.proposals,
            events: post.events,
            ..pre
        })
        &&& post.members@ == (match p.action {
            ProposalAction::AddMember => add_member_seq(pre.members@, p.target),
            ProposalAction::RemoveMember => discard(pre.members@, addr_is(p.target)),
            _ => pre.members@,
        })
        &&& post.proposals@ == pre.proposals@.update(
            idx,
            Proposal { status: ProposalStatus::Executed, ..p },
        )
        &&& post.events@ == pre.events@.push(GovEvent::Exec { id: proposal_id, executor })
    }

    /// Execute a Passed proposal on behalf of the authenticated `executor`;
    /// member-mutation proposals act on the electorate, all others are acted
    /// on outside the machine.
    pub fn execute_proposal(&mut self, executor: Address, proposal_id: u64) -> (r: Result<(), Error>)
        requires
            old(self).wf(),
        ensures
            final(self).wf(),
            r == Self::execute_proposal_result(*old(self), executor, proposal_id),
            r is Ok ==> Self::execute_proposal_ok(*old(self), *final(self), executor, proposal_id),
            r is Err ==> *final(self) == *old(self),
            forall|i: int|
                0 <= i < old(self).proposals@.len() && i < final(self).proposals@.len()
                    ==> status_le(
                    old(self).proposals@[i].status,
                    (#[trigger] final(self).proposals@[i]).status,
                ),
    {
        if !self.initialized {
            return Err(Error::NotInitialized);
        }
        if !(proposal_id >= 1 && proposal_id <= self.proposals.len() as u64) {
            return Err(Error::ProposalNotFound);
        }
        let idx = (proposal_id - 1) as usize;
        let (passed, action, proposer, target) = {
            let p = &self.proposals[idx];
            let ok = match p.status {
                ProposalStatus::Passed => true,
                _ => false,
            };
            (ok, p.action, p.proposer, p.target)
        };
        if !passed {
            return Err(Error::ProposalRejected);
        }
        if executor != self.admin && executor != proposer {
            return Err(Error::Unauthorized);
        }
        let ghost pre = *self;
        match action {
            ProposalAction::AddMember => {
                match find_addr(&self.members, target) {
                    Some(_) => {},
                    None => {
                        self.members.push(target);
                        proof {
                            assert forall|a: Address| count_where(
                                self.members@,
                                addr_is(a),
                            ) <= 1 by {
                                lemma_count_where_push(pre.members@, target, addr_is(a));
                            }
                        }
                    },
                }
            },
            ProposalAction::RemoveMember => {
                let kept = without_addr(&self.members, target);
                self.members = kept;
                proof {
                    assert forall|a: Address| count_where(self.members@, addr_is(a)) <= 1 by {
                        lemma_discard_single(pre.members@, addr_is(target), addr_is(a));
                    }
                }
            },
            _ => {},
        }
        let p = &mut self.proposals[idx];
        p.status = ProposalStatus::Executed;
        self.events.push(GovEvent::Exec { id: proposal_id, executor });
        proof {
            let ps = pre.proposals@;
            let vs = pre.votes@;
            assert forall|i: int| 0 <= i < self.proposals@.len() implies proposal_wf_at(
                self.proposals@,
                self.votes@,
                i,
            ) by {
                assert(proposal_wf_at(ps, vs, i));
            }
        }
        Ok(())
    }

    /// The proposal with the given id, if any.
    pub fn get_proposal(&self, proposal_id: u64) -> (r: Result<&Proposal, Error>)
        ensures
            1 <= proposal_id <= self.proposals@.len() ==> (r matches Ok(p) && *p
                == self.proposals@[proposal_id - 1]),
            !(1 <= proposal_id <= self.proposals@.len()) ==> r == Err::<&Proposal, Error>(
                Error::ProposalNotFound,
            ),
    {
        if proposal_id >= 1 && proposal_id <= self.proposals.len() as u64 {
            let idx = (proposal_id - 1) as usize;
            Ok(&self.proposals[idx])
        } else {
            Err(Error::ProposalNotFound)
        }
    }

    /// The stored configuration.
    pub fn get_config(&self) -> (r: Result<GovConfig, Error>)
        ensures
            !self.initialized ==> r == Err::<GovConfig, Error>(Error::NotInitialized),
            self.initialized ==> r == Ok::<GovConfig, Error>(
                GovConfig {
                    admin: self.admin,
                    member_count: self.members@.len() as usize,
                    quorum_percent: self.quorum_percent,
                    voting_period: self.voting_period,
                    proposal_count: self.proposal_counter,
                },
            ),
    {
        if !self.initialized {
            return Err(Error::NotInitialized);
        }
        Ok(
            GovConfig {
                admin: self.admin,
                member_count: self.members.len(),
                quorum_percent: self.quorum_percent,
                voting_period: self.voting_period,
                proposal_count: self.proposal_counter,
            },
        )
    }

    /// The electorate, in insertion order.
    pub fn get_members(&self) -> (r: &Vec<Address>)
        ensures
            r@ == self.members@,
    {
        &self.members
    }

    /// Whether `voter` has already voted on the given proposal.
    pub fn has_voted(&self, proposal_id: u64, voter: Address) -> (b: bool)
        ensures
            b == self.has_receipt(proposal_id, voter),
    {
        let n = self.votes.len();
        let mut i: usize = 0;
        while i < n
            invariant
                n == self.votes@.len(),
                i <= n,
                forall|j: int|
                    0 <= j < i ==> !((#[trigger] self.votes@[j]).proposal_id == proposal_id
                        && self.votes@[j].voter == voter),
            decreases n - i,
        {
            let v = self.votes[i];
            if v.proposal_id == proposal_id && v.voter == voter {
                proof {
                    crate::seqs::lemma_count_where_at(
                        self.votes@,
                        vote_pair_is(proposal_id, voter),
                        i as int,
                    );
                }
                return true;
            }
            i = i + 1;
        }
        proof {
            lemma_count_where_zero(self.votes@, vote_pair_is(proposal_id, voter));
        }
        false
    }

    pub open spec fn transfer_admin_result(pre: Self, current_admin: Address) -> Result<(), Error> {
        if !pre.initialized {
            Err(Error::NotInitialized)
        } else if current_admin != pre.admin {
            Err(Error::Unauthorized)
        } else {
            Ok(())
        }
    }

    /// Hand the admin slot to `new_admin`; only the stored admin may.
    pub fn transfer_admin(&mut self, current_admin: Address, new_admin: Address) -> (r: Result<
        (),
        Error,
    >)
        requires
            old(self).wf(),
        ensures
            final(self).wf(),
            r == Self::transfer_admin_result(*old(self), current_admin),
            r is Ok ==> *final(self) == (Self {
                admin: new_admin,
                events: final(self).events,
                ..*old(self)
            }) && final(self).events@ == old(self).events@.push(
                GovEvent::AdminTransfer { prev_admin: current_admin, new_admin },
            ),
            r is Err ==> *final(self) == *old(self),
    {
        if !self.initialized {
            return Err(Error::NotInitialized);
        }
        if current_admin != self.admin {
            return Err(Error::Unauthorized);
        }
        self.admin = new_admin;
        self.events.push(GovEvent::AdminTransfer { prev_admin: current_admin, new_admin });
        Ok(())
    }

    pub open spec fn set_quorum_result(pre: Self, admin: Address, new_quorum: u32) -> Result<
        (),
        Error,
    > {
        if !pre.initialized {
            Err(Error::NotInitialized)
        } else if admin != pre.admin {
            Err(Error::Unauthorized)
        } else if new_quorum < 1 || new_quorum > 100 {
            Err(Error::InvalidProposal)
        } else {
            Ok(())
        }
    }

    /// Change the quorum percentage; only the stored admin may, and only to a
    /// value in `1 ..= 100`.
    pub fn set_quorum(&mut self, admin: Address, new_quorum: u32) -> (r: Result<(), Error>)
        requires
            old(self).wf(),
        ensures
            final(self).wf(),
            r == Self::set_quorum_result(*old(self), admin, new_quorum),
            r is Ok ==> *final(self) == (Self {
                quorum_percent: new_quorum,
                events: final(self).events,
                ..*old(self)
            }) && final(self).events@ == old(self).events@.push(
                GovEvent::Quorum { quorum_percent: new_quorum },
            ),
            r is Err ==> *final(self) == *old(self),
    {
        if !self.initialized {
            return Err(Error::NotInitialized);
        }
        if admin != self.admin {
            return Err(Error::Unauthorized);
        }
        if new_quorum < 1 || new_quorum > 100 {
            return Err(Error::InvalidProposal);
        }
        self.quorum_percent = new_quorum;
        self.events.push(GovEvent::Quorum { quorum_percent: new_quorum });
        Ok(())
    }

    /// Whether the authenticated `caller` may replace the contract code: only
    /// the stored admin may. The host performs the actual code swap after
    /// this check succeeds.
    pub fn upgrade(&self, caller: Address) -> (r: Result<(), Error>)
        ensures
            r == (if !self.initialized {
                Err::<(), Error>(Error::NotInitialized)
            } else if caller != self.admin {
                Err::<(), Error>(Error::Unauthorized)
            } else {
                Ok::<(), Error>(())
            }),
    {
        if !self.initialized {
            return Err(Error::NotInitialized);
        }
        if caller != self.admin {
            return Err(Error::Unauthorized);
        }
        Ok(())
    }
}

/// For every proposal of a well-formed machine the votes in favor and against
/// sum to the total, and no (proposal, voter) pair carries two receipts.
pub proof fn lemma_tallies_consistent(g: GovernanceContract)
    requires
        g.wf(),
        g.initialized,
    ensures
        forall|i: int|
            0 <= i < g.proposals@.len() ==> (#[trigger] g.proposals@[i]).votes_for
                + g.proposals@[i].votes_against == g.proposals@[i].total_votes,
        forall|id: u64, a: Address| count_where(g.votes@, vote_pair_is(id, a)) <= 1,
{
    assert forall|i: int| 0 <= i < g.proposals@.len() implies (#[trigger] g.proposals@[i]).votes_for
        + g.proposals@[i].votes_against == g.proposals@[i].total_votes by {
        assert(proposal_wf_at(g.proposals@, g.votes@, i));
        let pid = g.proposals@[i].id;
        lemma_count_where_split(g.votes@, vote_for_is(pid), vote_against_is(pid), vote_id_is(pid));
    }
}

/// Successful creations hand out strictly increasing ids with no gaps: the
/// proposal at book index `i` carries id `i + 1`.
pub proof fn lemma_ids_strictly_increasing(g: GovernanceContract)
    requires
        g.wf(),
        g.initialized,
    ensures
        forall|i: int|
            0 <= i < g.proposals@.len() ==> (#[trigger] g.proposals@[i]).id == i + 1,
        forall|i: int, j: int|
            0 <= i < j < g.proposals@.len() ==> g.proposals@[i].id < g.proposals@[j].id,
        g.proposal_counter == g.proposals@.len(),
{
    assert forall|i: int| 0 <= i < g.proposals@.len() implies (#[trigger] g.proposals@[i]).id == i
        + 1 by {
        assert(proposal_wf_at(g.proposals@, g.votes@, i));
    }
}

/// Adding the same address to the electorate twice is the same as adding it
/// once.
pub proof fn lemma_add_member_idempotent(s: Seq<Address>, a: Address)
    ensures
        add_member_seq(add_member_seq(s, a), a) == add_member_seq(s, a),
{
    if !s.contains(a) {
        assert(s.push(a)[s.len() as int] == a);
        assert(s.push(a).contains(a));
    }
}

} // verus!
