//! The treasury state machine: an integer balance, a signer set with an
//! N-of-M approval threshold, and a withdrawal ledger whose balance always
//! equals deposits minus executed withdrawals.

use vstd::prelude::*;

use crate::address::addr_is;
use crate::address::find_addr;
use crate::address::unique_addrs;
use crate::address::without_addr;
use crate::address::Address;
use crate::seqs::count_where;
use crate::seqs::discard;
use crate::seqs::lemma_count_where_at;
use crate::seqs::lemma_count_where_le_len;
use crate::seqs::lemma_count_where_push;
use crate::seqs::lemma_discard_len;
use crate::seqs::lemma_discard_single;

verus! {

/// Everything that can go wrong in the treasury state machine.
#[derive(Clone, Copy, Debug, PartialEq, Eq, Structural)]
pub enum Error {
    /// The contract has not been initialized.
    NotInitialized,
    /// The contract is already initialized.
    AlreadyInitialized,
    /// The caller is not authorized for this operation.
    Unauthorized,
    /// The amount must be greater than zero.
    InvalidAmount,
    /// The treasury does not hold enough funds.
    InsufficientFunds,
    /// The threshold must be at least 1 and at most the signer count.
    InvalidThreshold,
    /// No transaction carries the given id.
    TransactionNotFound,
    /// The signer has already approved this transaction.
    AlreadyApproved,
    /// The transaction has already been executed.
    AlreadyExecuted,
    /// The address is already a signer.
    AlreadySigner,
    /// The address is not a signer.
    NotASigner,
    /// Removing the signer would leave fewer signers than the threshold.
    ThresholdBreach,
    /// Checked arithmetic overflowed.
    Overflow,
}

/// A withdrawal proposal collecting signer approvals.
#[derive(Clone, Debug, PartialEq, Eq)]
pub struct Transaction {
    /// Unique identifier; ids are dense and start at 1.
    pub id: u64,
    /// Destination of the withdrawal.
    pub to: Address,
    /// Amount to withdraw; always positive.
    pub amount: i128,
    /// Free-form description.
    pub memo: String,
    /// Signers that have approved, in approval order, without duplicates.
    pub approvals: Vec<Address>,
    /// Whether the withdrawal has been executed; moves only from false to
    /// true.
    pub executed: bool,
    /// Ledger timestamp of the proposal.
    pub created_at: u64,
    /// Who proposed the withdrawal.
    pub proposer: Address,
}

/// Snapshot of the treasury configuration.
#[derive(Clone, Copy, Debug, PartialEq, Eq, Structural)]
pub struct TreasuryConfig {
    pub admin: Address,
    pub threshold: u32,
    pub signer_count: usize,
    pub balance: i128,
    pub tx_count: u64,
}

/// The events the machine emits, in emission order.
#[derive(Clone, Copy, Debug, PartialEq, Eq, Structural)]
pub enum TreasuryEvent {
    Init { admin: Address, threshold: u32, signer_count: usize },
    Deposit { from: Address, amount: i128, new_balance: i128 },
    Propose { id: u64, proposer: Address, to: Address, amount: i128 },
    Approve { id: u64, signer: Address, approval_count: usize },
    Execute { id: u64, to: Address, amount: i128, new_balance: i128 },
    AddSig { signer: Address, signer_count: usize },
    RemSig { signer: Address, signer_count: usize },
    Thresh { threshold: u32 },
    AdminTransfer { prev_admin: Address, new_admin: Address },
}

/// The total amount the executed transactions have withdrawn.
pub open spec fn executed_total(s: Seq<Transaction>) -> int
    decreases s.len(),
{
    if s.len() == 0 {
        0
    } else {
        executed_total(s.drop_last()) + if s.last().executed {
            s.last().amount as int
        } else {
            0int
        }
    }
}

/// Pushing a transaction adds its contribution to the executed total.
pub proof fn lemma_executed_total_push(s: Seq<Transaction>, t: Transaction)
    ensures
        executed_total(s.push(t)) == executed_total(s) + if t.executed {
            t.amount as int
        } else {
            0int
        },
{
    assert(s.push(t).drop_last() =~= s);
    assert(s.push(t).last() == t);
}

/// Replacing a transaction swaps its contribution to the executed total.
pub proof fn lemma_executed_total_update(s: Seq<Transaction>, i: int, t: Transaction)
    requires
        0 <= i < s.len(),
    ensures
        executed_total(s.update(i, t)) == executed_total(s) - (if s[i].executed {
            s[i].amount as int
        } else {
            0int
        }) + (if t.executed {
            t.amount as int
        } else {
            0int
        }),
    decreases s.len(),
{
    let u = s.update(i, t);
    if i == s.len() - 1 {
        assert(u.drop_last() =~= s.drop_last());
        assert(u.last() == t);
    } else {
        assert(u.drop_last() =~= s.drop_last().update(i, t));
        assert(u.last() == s.last());
        lemma_executed_total_update(s.drop_last(), i, t);
    }
}

/// The transaction at ledger index `i` is internally consistent: dense id,
/// positive amount, and a duplicate-free, non-empty approval list.
pub open spec fn tx_wf_at(txs: Seq<Transaction>, i: int) -> bool
    recommends
        0 <= i < txs.len(),
{
    let t = txs[i];
    &&& t.id == i + 1
    &&& t.amount > 0
    &&& unique_addrs(t.approvals@)
    &&& t.approvals@.len() >= 1
}

/// The treasury state machine: an integer balance, a signer set with an
/// N-of-M approval threshold, and a densely numbered withdrawal ledger. The
/// ghost `deposited` field accumulates every deposit, so that the balance
/// always equals deposits minus executed withdrawals.
pub struct TreasuryContract {
    pub initialized: bool,
    pub admin: Address,
    pub threshold: u32,
    pub signers: Vec<Address>,
    pub balance: i128,
    pub tx_counter: u64,
    pub transactions: Vec<Transaction>,
    pub events: Vec<TreasuryEvent>,
    pub deposited: Ghost<int>,
}

impl TreasuryContract {
    /// Well-formedness: a duplicate-free signer set, a threshold within
    /// `1 ..= |signers|`, dense transaction ids, consistent transactions, and
    /// a non-negative balance equal to deposits minus executed withdrawals.
    pub open spec fn wf(self) -> bool {
        &&& unique_addrs(self.signers@)
        &&& if self.initialized {
            &&& 1 <= self.threshold <= self.signers@.len()
            &&& self.balance >= 0
            &&& self.tx_counter == self.transactions@.len()
            &&& forall|i: int|
                0 <= i < self.transactions@.len() ==> tx_wf_at(self.transactions@, i)
            &&& self.balance == self.deposited@ - executed_total(self.transactions@)
        } else {
            &&& self.signers@.len() == 0
            &&& self.balance == 0
            &&& self.tx_counter == 0
            &&& self.transactions@.len() == 0
            &&& self.events@.len() == 0
            &&& self.deposited@ == 0
        }
    }

    /// A fresh, uninitialized machine.
    pub fn new() -> (c: Self)
        ensures
            c.wf(),
            !c.initialized,
            c.events@.len() == 0,
    {
        let c = TreasuryContract {
            initialized: false,
            admin: Address { id: 0 },
            threshold: 0,
            signers: Vec::new(),
            balance: 0,
            tx_counter: 0,
            transactions: Vec::new(),
            events: Vec::new(),
            deposited: Ghost(0int),
        };
        proof {
            assert forall|a: Address| count_where(c.signers@, addr_is(a)) <= 1 by {
                lemma_count_where_le_len(c.signers@, addr_is(a));
            }
        }
        c
    }

    pub open spec fn initialize_result(pre: Self, threshold: u32, signers: Seq<Address>) -> Result<
        (),
        Error,
    > {
        if pre.initialized {
            Err(Error::AlreadyInitialized)
        } else if threshold == 0 || threshold > signers.len() {
            Err(Error::InvalidThreshold)
        } else {
            Ok(())
        }
    }

    /// On success the admin, the threshold and the signer set are stored, the
    /// balance and ledger start empty, and the init event is logged.
    pub open spec fn initialize_ok(
        pre: Self,
        post: Self,
        admin: Address,
        threshold: u32,
        signers: Seq<Address>,
    ) -> bool {
        &&& post.initialized
        &&& post.admin == admin
        &&& post.threshold == threshold
        &&& post.signers@ == signers
        &&& post.balance == 0
        &&& post.tx_counter == 0
        &&& post.transactions@.len() == 0
        &&& post.events@ == pre.events@.push(
            TreasuryEvent::Init { admin, threshold, signer_count: signers.len() as usize },
        )
    }

    /// Initialize the machine. The host has already authenticated `admin`;
    /// the signer set must be duplicate-free.
    pub fn initialize(&mut self, admin: Address, threshold: u32, signers: Vec<Address>) -> (r:
        Result<(), Error>)
        requires
            old(self).wf(),
            unique_addrs(signers@),
        ensures
            final(self).wf(),
            r == Self::initialize_result(*old(self), threshold, signers@),
            r is Ok ==> Self::initialize_ok(*old(self), *final(self), admin, threshold, signers@),
            r is Err ==> *final(self) == *old(self),
    {
        if self.initialized {
            return Err(Error::AlreadyInitialized);
        }
        if threshold == 0 || (threshold as u64) > (signers.len() as u64) {
            return Err(Error::InvalidThreshold);
        }
        self.initialized = true;
        self.admin = admin;
        self.threshold = threshold;
        self.signers = signers;
        self.balance = 0;
        self.tx_counter = 0;
        self.events.push(
            TreasuryEvent::Init { admin, threshold, signer_count: self.signers.len() },
        );
        Ok(())
    }

    pub open spec fn deposit_result(pre: Self, amount: i128) -> Result<(), Error> {
        if !pre.initialized {
            Err(Error::NotInitialized)
        } else if amount <= 0 {
            Err(Error::InvalidAmount)
        } else if pre.balance + amount > i128::MAX {
            Err(Error::Overflow)
        } else {
            Ok(())
        }
    }

    /// On success the balance grows by the amount and the deposit event is
    /// logged.
    pub open spec fn deposit_ok(pre: Self, post: Self, from: Address, amount: i128) -> bool {
        &&& post == (Self {
            balance: (pre.balance + amount) as i128,
            deposited: post.deposited,
            events: post.events,
            ..pre
        })
        &&& post.deposited@ == pre.deposited@ + amount
        &&& post.events@ == pre.events@.push(
            TreasuryEvent::Deposit { from, amount, new_balance: (pre.balance + amount) as i128 },
        )
    }

    /// Deposit funds on behalf of the authenticated `from`; anyone may
    /// deposit a positive amount.
    pub fn deposit(&mut self, from: Address, amount: i128) -> (r: Result<(), Error>)
        requires
            old(self).wf(),
        ensures
            final(self).wf(),
            r == Self::deposit_result(*old(self), amount),
            r is Ok ==> Self::deposit_ok(*old(self), *final(self), from, amount),
            r is Err ==> *final(self) == *old(self),
    {
        if !self.initialized {
            return Err(Error::NotInitialized);
        }
        if amount <= 0 {
            return Err(Error::InvalidAmount);
        }
        if amount > i128::MAX - self.balance {
            return Err(Error::Overflow);
        }
        let new_balance = self.balance + amount;
        self.balance = new_balance;
        self.deposited = Ghost(self.deposited@ + amount);
        self.events.push(TreasuryEvent::Deposit { from, amount, new_balance });
        Ok(())
    }

    pub open spec fn propose_withdrawal_result(pre: Self, proposer: Address, amount: i128) -> Result<
        u64,
        Error,
    > {
        if !pre.initialized {
            Err(Error::NotInitialized)
        } else if !pre.signers@.contains(proposer) {
            Err(Error::NotASigner)
        } else if amount <= 0 {
            Err(Error::InvalidAmount)
        } else if pre.balance < amount {
            Err(Error::InsufficientFunds)
        } else if pre.tx_counter == u64::MAX {
            Err(Error::Overflow)
        } else {
            Ok((pre.tx_counter + 1) as u64)
        }
    }

    /// On success the withdrawal enters the ledger unexecuted, already
    /// carrying the proposer's approval, and the propose event is logged. The
    /// balance is not reserved: it is checked again at execution.
    pub open spec fn propose_withdrawal_ok(
        pre: Self,
        post: Self,
        proposer: Address,
        to: Address,
        amount: i128,
        memo: String,
        now: u64,
        id: u64,
    ) -> bool {
        &&& id == pre.tx_counter + 1
        &&& post == (Self {
            tx_counter: id,
            transactions: post.transactions,
            events: post.events,
            ..pre
        })
        &&& post.transactions@.len() == pre.transactions@.len() + 1
        &&& post.transactions@.subrange(0, pre.transactions@.len() as int) == pre.transactions@
        &&& ({
            let t = post.transactions@.last();
            &&& t.id == id
            &&& t.to == to
            &&& t.amount == amount
            &&& t.memo == memo
            &&& t.approvals@ == seq![proposer]
            &&& !t.executed
            &&& t.created_at == now
            &&& t.proposer == proposer
        })
        &&& post.events@ == pre.events@.push(
            TreasuryEvent::Propose { id, proposer, to, amount },
        )
    }

    /// Propose a withdrawal on behalf of the authenticated signer `proposer`;
    /// `now` is the ledger timestamp.
    pub fn propose_withdrawal(
        &mut self,
        proposer: Address,
        to: Address,
        amount: i128,
        memo: String,
        now: u64,
    ) -> (r: Result<u64, Error>)
        requires
            old(self).wf(),
        ensures
            final(self).wf(),
            r == Self::propose_withdrawal_result(*old(self), proposer, amount),
            r matches Ok(id) ==> Self::propose_withdrawal_ok(
                *old(self),
                *final(self),
                proposer,
                to,
                amount,
                memo,
                now,
                id,
            ),
            r is Err ==> *final(self) == *old(self),
    {
        if !self.initialized {
            return Err(Error::NotInitialized);
        }
        match find_addr(&self.signers, proposer) {
            Some(_) => {},
            None => {
                return Err(Error::NotASigner);
            },
        }
        if amount <= 0 {
            return Err(Error::InvalidAmount);
        }
        if self.balance < amount {
            return Err(Error::InsufficientFunds);
        }
        if self.tx_counter == u64::MAX {
            return Err(Error::Overflow);
        }
        let id = self.tx_counter + 1;
        let ghost pre = *self;
        let mut approvals: Vec<Address> = Vec::new();
        approvals.push(proposer);
        proof {
            assert(approvals@ =~= seq![proposer]);
        }
        let tx = Transaction {
            id,
            to,
            amount,
            memo,
            approvals,
            executed: false,
            created_at: now,
            proposer,
        };
        self.tx_counter = id;
        self.transactions.push(tx);
        self.events.push(TreasuryEvent::Propose { id, proposer, to, amount });
        proof {
            let ts = pre.transactions@;
            let ts2 = self.transactions@;
            assert(ts2.subrange(0, ts.len() as int) =~= ts);
            lemma_executed_total_push(ts, ts2.last());
            assert forall|i: int| 0 <= i < ts2.len() implies tx_wf_at(ts2, i) by {
                if i < ts.len() {
                    assert(tx_wf_at(ts, i));
                    assert(ts2[i] == ts[i]);
                } else {
                    assert(ts2[i] == ts2.last());
                    assert forall|a: Address| count_where(
                        ts2[i].approvals@,
                        addr_is(a),
                    ) <= 1 by {
                        lemma_count_where_le_len(ts2[i].approvals@, addr_is(a));
                    }
                }
            }
        }
        Ok(id)
    }

    pub open spec fn approve_result(pre: Self, signer: Address, tx_id: u64) -> Result<usize, Error> {
        if !pre.initialized {
            Err(Error::NotInitialized)
        } else if !pre.signers@.contains(signer) {
            Err(Error::NotASigner)
        } else if !(1 <= tx_id <= pre.transactions@.len()) {
            Err(Error::TransactionNotFound)
        } else {
            let t = pre.transactions@[tx_id - 1];
            if t.executed {
                Err(Error::AlreadyExecuted)
            } else if t.approvals@.contains(signer) {
                Err(Error::AlreadyApproved)
            } else {
                Ok((t.approvals@.len() + 1) as usize)
            }
        }
    }

    /// On success the signer joins the transaction's approval list and the
    /// approve event is logged; nothing else moves.
    pub open spec fn approve_ok(pre: Self, post: Self, signer: Address, tx_id: u64) -> bool {
        let idx = tx_id - 1;
        let t = pre.transactions@[idx];
        &&& post == (Self { transactions: post.transactions, events: post.events, ..pre })
        &&& post.transactions@.len() == pre.transactions@.len()
        &&& forall|j: int|
            0 <= j < pre.transactions@.len() && j != idx ==> post.transactions@[j]
                == pre.transactions@[j]
        &&& ({
            let t2 = post.transactions@[idx];
            &&& t2.approvals@ == t.approvals@.push(signer)
            &&& t2.id == t.id
            &&& t2.to == t.to
            &&& t2.amount == t.amount
            &&& t2.memo == t.memo
            &&& t2.executed == t.executed
            &&& t2.created_at == t.created_at
            &&& t2.proposer == t.proposer
        })
        &&& post.events@ == pre.events@.push(
            TreasuryEvent::Approve {
                id: tx_id,
                signer,
                approval_count: (t.approvals@.len() + 1) as usize,
            },
        )
    }

    /// Record the authenticated `signer`'s approval of a pending withdrawal;
    /// returns the new approval count.
    pub fn approve(&mut self, signer: Address, tx_id: u64) -> (r: Result<usize, Error>)
        requires
            old(self).wf(),
        ensures
            final(self).wf(),
            r == Self::approve_result(*old(self), signer, tx_id),
            r is Ok ==> Self::approve_ok(*old(self), *final(self), signer, tx_id),
            r is Err ==> *final(self) == *old(self),
            final(self).transactions@.len() == old(self).transactions@.len() || r is Err,
            forall|j: int|
                0 <= j < old(self).transactions@.len() && j < final(self).transactions@.len()
                    && old(self).transactions@[j].executed ==> (#[trigger] final(self).transactions@[j]).executed,
    {
        if !self.initialized {
            return Err(Error::NotInitialized);
        }
        match find_addr(&self.signers, signer) {
            Some(_) => {},
            None => {
                return Err(Error::NotASigner);
            },
        }
        if !(tx_id >= 1 && tx_id <= self.transactions.len() as u64) {
            return Err(Error::TransactionNotFound);
        }
        let idx = (tx_id - 1) as usize;
        let already_executed = {
            let t = &self.transactions[idx];
            t.executed
        };
        if already_executed {
            return Err(Error::AlreadyExecuted);
        }
        let already_approved = {
            let t = &self.transactions[idx];
            match find_addr(&t.approvals, signer) {
                Some(_) => true,
                None => false,
            }
        };
        if already_approved {
            return Err(Error::AlreadyApproved);
        }
        let ghost pre = *self;
        proof {
            assert(tx_wf_at(pre.transactions@, idx as int));
        }
        let count = {
            let t = &mut self.transactions[idx];
            t.approvals.push(signer);
            t.approvals.len()
        };
        self.events.push(TreasuryEvent::Approve { id: tx_id, signer, approval_count: count });
        proof {
            let ts = pre.transactions@;
            let ts2 = self.transactions@;
            lemma_executed_total_update(ts, idx as int, ts2[idx as int]);
            assert forall|i: int| 0 <= i < ts2.len() implies tx_wf_at(ts2, i) by {
                assert(tx_wf_at(ts, i));
                if i == idx as int {
                    assert forall|a: Address| count_where(
                        ts2[i].approvals@,
                        addr_is(a),
                    ) <= 1 by {
                        lemma_count_where_push(ts[i].approvals@, signer, addr_is(a));
                    }
                }
            }
        }
        Ok(count)
    }

    pub open spec fn execute_result(pre: Self, executor: Address, tx_id: u64) -> Result<(), Error> {
        if !pre.initialized {
            Err(Error::NotInitialized)
        } else if !pre.signers@.contains(executor) {
            Err(Error::NotASigner)
        } else if !(1 <= tx_id <= pre.transactions@.len()) {
            Err(Error::TransactionNotFound)
        } else {
            let t = pre.transactions@[tx_id - 1];
            if t.executed {
                Err(Error::AlreadyExecuted)
            } else if t.approvals@.len() < pre.threshold {
                Err(Error::Unauthorized)
            } else if pre.balance < t.amount {
                Err(Error::InsufficientFunds)
            } else {
                Ok(())
            }
        }
    }

    /// On success the balance shrinks by the withdrawn amount, the
    /// transaction becomes executed, and the execute event is logged.
    pub open spec fn execute_ok(pre: Self, post: Self, executor: Address, tx_id: u64) -> bool {
        let idx = tx_id - 1;
        let t = pre.transactions@[idx];
        &&& post == (Self {
            balance: (pre.balance - t.amount) as i128,
            transactions: post.transactions,
            events: post.events,
            ..pre
        })
        &&& post.transactions@.len() == pre.transactions@.len()
        &&& forall|j: int|
            0 <= j < pre.transactions@.len() && j != idx ==> post.transactions@[j]
                == pre.transactions@[j]
        &&& ({
            let t2 = post.transactions@[idx];
            &&& t2.executed
            &&& t2.id == t.id
            &&& t2.to == t.to
            &&& t2.amount == t.amount
            &&& t2.memo == t.memo
            &&& t2.approvals@ == t.approvals@
            &&& t2.created_at == t.created_at
            &&& t2.proposer == t.proposer
        })
        &&& post.events@ == pre.events@.push(
            TreasuryEvent::Execute {
                id: tx_id,
                to: t.to,
                amount: t.amount,
                new_balance: (pre.balance - t.amount) as i128,
            },
        )
    }

    /// Execute a withdrawal whose approvals meet the threshold, on behalf of
    /// the authenticated signer `executor`.
    pub fn execute(&mut self, executor: Address, tx_id: u64) -> (r: Result<(), Error>)
        requires
            old(self).wf(),
        ensures
            final(self).wf(),
            r == Self::execute_result(*old(self), executor, tx_id),
            r is Ok ==> Self::execute_ok(*old(self), *final(self), executor, tx_id),
            r is Err ==> *final(self) == *old(self),
            final(self).transactions@.len() == old(self).transactions@.len() || r is Err,
            forall|j: int|
                0 <= j < old(self).transactions@.len() && j < final(self).transactions@.len()
                    && old(self).transactions@[j].executed ==> (#[trigger] final(self).transactions@[j]).executed,
    {
        if !self.initialized {
            return Err(Error::NotInitialized);
        }
        match find_addr(&self.signers, executor) {
            Some(_) => {},
            None => {
                return Err(Error::NotASigner);
            },
        }
        if !(tx_id >= 1 && tx_id <= self.transactions.len() as u64) {
            return Err(Error::TransactionNotFound);
        }
        let idx = (tx_id - 1) as usize;
        let (already_executed, approval_count, amount, to) = {
            let t = &self.transactions[idx];
            (t.executed, t.approvals.len(), t.amount, t.to)
        };
        if already_executed {
            return Err(Error::AlreadyExecuted);
        }
        if (approval_count as u64) < (self.threshold as u64) {
            return Err(Error::Unauthorized);
        }
        if self.balance < amount {
            return Err(Error::InsufficientFunds);
        }
        let ghost pre = *self;
        proof {
            assert(tx_wf_at(pre.transactions@, idx as int));
        }
        let new_balance = self.balance - amount;
        self.balance = new_balance;
        {
            let t = &mut self.transactions[idx];
            t.executed = true;
        }
        self.events.push(
            TreasuryEvent::Execute { id: tx_id, to, amount, new_balance },
        );
        proof {
            let ts = pre.transactions@;
            let ts2 = self.transactions@;
            lemma_executed_total_update(ts, idx as int, ts2[idx as int]);
            assert forall|i: int| 0 <= i < ts2.len() implies tx_wf_at(ts2, i) by {
                assert(tx_wf_at(ts, i));
            }
        }
        Ok(())
    }

    pub open spec fn add_signer_result(pre: Self, admin: Address, new_signer: Address) -> Result<
        (),
        Error,
    > {
        if !pre.initialized {
            Err(Error::NotInitialized)
        } else if admin != pre.admin {
            Err(Error::Unauthorized)
        } else if pre.signers@.contains(new_signer) {
            Err(Error::AlreadySigner)
        } else {
            Ok(())
        }
    }

    /// Add a signer; only the stored admin may, and only an address that is
    /// not yet a signer.
    pub fn add_signer(&mut self, admin: Address, new_signer: Address) -> (r: Result<(), Error>)
        requires
            old(self).wf(),
        ensures
            final(self).wf(),
            r == Self::add_signer_result(*old(self), admin, new_signer),
            r is Ok ==> *final(self) == (Self {
                signers: final(self).signers,
                events: final(self).events,
                ..*old(self)
            }) && final(self).signers@ == old(self).signers@.push(new_signer) && final(self).events@ == old(self).events@.push(
                TreasuryEvent::AddSig {
                    signer: new_signer,
                    signer_count: (old(self).signers@.len() + 1) as usize,
                },
            ),
            r is Err ==> *final(self) == *old(self),
    {
        if !self.initialized {
            return Err(Error::NotInitialized);
        }
        if admin != self.admin {
            return Err(Error::Unauthorized);
        }
        match find_addr(&self.signers, new_signer) {
            Some(_) => {
                return Err(Error::AlreadySigner);
            },
            None => {},
        }
        let ghost pre = *self;
        self.signers.push(new_signer);
        let n = self.signers.len();
        self.events.push(TreasuryEvent::AddSig { signer: new_signer, signer_count: n });
        proof {
            assert forall|a: Address| count_where(self.signers@, addr_is(a)) <= 1 by {
                lemma_count_where_push(pre.signers@, new_signer, addr_is(a));
            }
        }
        Ok(())
    }

    pub open spec fn remove_signer_result(pre: Self, admin: Address, signer: Address) -> Result<
        (),
        Error,
    > {
        if !pre.initialized {
            Err(Error::NotInitialized)
        } else if admin != pre.admin {
            Err(Error::Unauthorized)
        } else if pre.signers@.len() <= pre.threshold {
            Err(Error::ThresholdBreach)
        } else if !pre.signers@.contains(signer) {
            Err(Error::NotASigner)
        } else {
            Ok(())
        }
    }

    /// Remove a signer, preserving order; only the stored admin may, and only
    /// while strictly more signers remain than the threshold requires.
    pub fn remove_signer(&mut self, admin: Address, signer: Address) -> (r: Result<(), Error>)
        requires
            old(self).wf(),
        ensures
            final(self).wf(),
            r == Self::remove_signer_result(*old(self), admin, signer),
            r is Ok ==> *final(self) == (Self {
                signers: final(self).signers,
                events: final(self).events,
                ..*old(self)
            }) && final(self).signers@ == discard(old(self).signers@, addr_is(signer)) && final(self).events@ == old(self).events@.push(
                TreasuryEvent::RemSig {
                    signer,
                    signer_count: (old(self).signers@.len() - 1) as usize,
                },
            ),
            r is Err ==> *final(self) == *old(self),
    {
        if !self.initialized {
            return Err(Error::NotInitialized);
        }
        if admin != self.admin {
            return Err(Error::Unauthorized);
        }
        if (self.signers.len() as u64) <= (self.threshold as u64) {
            return Err(Error::ThresholdBreach);
        }
        let found = match find_addr(&self.signers, signer) {
            Some(i) => {
                proof {
                    lemma_count_where_at(self.signers@, addr_is(signer), i as int);
                }
                true
            },
            None => false,
        };
        if !found {
            return Err(Error::NotASigner);
        }
        let ghost pre = *self;
        let kept = without_addr(&self.signers, signer);
        self.signers = kept;
        let n = self.signers.len();
        self.events.push(TreasuryEvent::RemSig { signer, signer_count: n });
        proof {
            lemma_discard_len(pre.signers@, addr_is(signer));
            assert forall|a: Address| count_where(self.signers@, addr_is(a)) <= 1 by {
                lemma_discard_single(pre.signers@, addr_is(signer), addr_is(a));
            }
        }
        Ok(())
    }

    pub open spec fn set_threshold_result(pre: Self, admin: Address, new_threshold: u32) -> Result<
        (),
        Error,
    > {
        if !pre.initialized {
            Err(Error::NotInitialized)
        } else if admin != pre.admin {
            Err(Error::Unauthorized)
        } else if new_threshold == 0 || new_threshold > pre.signers@.len() {
            Err(Error::InvalidThreshold)
        } else {
            Ok(())
        }
    }

    /// Change the approval threshold; only the stored admin may, and only to
    /// a value in `1 ..= |signers|`.
    pub fn set_threshold(&mut self, admin: Address, new_threshold: u32) -> (r: Result<(), Error>)
        requires
            old(self).wf(),
        ensures
            final(self).wf(),
            r == Self::set_threshold_result(*old(self), admin, new_threshold),
            r is Ok ==> *final(self) == (Self {
                threshold: new_threshold,
                events: final(self).events,
                ..*old(self)
            }) && final(self).events@ == old(self).events@.push(
                TreasuryEvent::Thresh { threshold: new_threshold },
            ),
            r is Err ==> *final(self) == *old(self),
    {
        if !self.initialized {
            return Err(Error::NotInitialized);
        }
        if admin != self.admin {
            return Err(Error::Unauthorized);
        }
        if new_threshold == 0 || (new_threshold as u64) > (self.signers.len() as u64) {
            return Err(Error::InvalidThreshold);
        }
        self.threshold = new_threshold;
        self.events.push(TreasuryEvent::Thresh { threshold: new_threshold });
        Ok(())
    }

    pub open spec fn transfer_admin_result(pre: Self, current_admin: Address) -> Result<(), Error> {
        if !pre.initialized {
            Err(Error::NotInitialized)
        } else if current_admin != pre.admin {
            Err(Error::Unauthorized)
        } else {
            Ok(())
        }
    }

    /// Hand the admin slot to `new_admin`; only the stored admin may.
    pub fn transfer_admin(&mut self, current_admin: Address, new_admin: Address) -> (r: Result<
        (),
        Error,
    >)
        requires
            old(self).wf(),
        ensures
            final(self).wf(),
            r == Self::transfer_admin_result(*old(self), current_admin),
            r is Ok ==> *final(self) == (Self {
                admin: new_admin,
                events: final(self).events,
                ..*old(self)
            }) && final(self).events@ == old(self).events@.push(
                TreasuryEvent::AdminTransfer { prev_admin: current_admin, new_admin },
            ),
            r is Err ==> *final(self) == *old(self),
    {
        if !self.initialized {
            return Err(Error::NotInitialized);
        }
        if current_admin != self.admin {
            return Err(Error::Unauthorized);
        }
        self.admin = new_admin;
        self.events.push(TreasuryEvent::AdminTransfer { prev_admin: current_admin, new_admin });
        Ok(())
    }

    /// Whether the authenticated `caller` may replace the contract code: only
    /// the stored admin may. The host performs the actual code swap after
    /// this check succeeds.
    pub fn upgrade(&self, caller: Address) -> (r: Result<(), Error>)
        ensures
            r == (if !self.initialized {
                Err::<(), Error>(Error::NotInitialized)
            } else if caller != self.admin {
                Err::<(), Error>(Error::Unauthorized)
            } else {
                Ok::<(), Error>(())
            }),
    {
        if !self.initialized {
            return Err(Error::NotInitialized);
        }
        if caller != self.admin {
            return Err(Error::Unauthorized);
        }
        Ok(())
    }

    /// The current balance; zero before initialization.
    pub fn get_balance(&self) -> (r: i128)
        ensures
            r == self.balance,
    {
        self.balance
    }

    /// The stored configuration.
    pub fn get_config(&self) -> (r: Result<TreasuryConfig, Error>)
        ensures
            !self.initialized ==> r == Err::<TreasuryConfig, Error>(Error::NotInitialized),
            self.initialized ==> r == Ok::<TreasuryConfig, Error>(
                TreasuryConfig {
                    admin: self.admin,
                    threshold: self.threshold,
                    signer_count: self.signers@.len() as usize,
                    balance: self.balance,
                    tx_count: self.tx_counter,
                },
            ),
    {
        if !self.initialized {
            return Err(Error::NotInitialized);
        }
        Ok(
            TreasuryConfig {
                admin: self.admin,
                threshold: self.threshold,
                signer_count: self.signers.len(),
                balance: self.balance,
                tx_count: self.tx_counter,
            },
        )
    }

    /// The transaction with the given id, if any.
    pub fn get_transaction(&self, tx_id: u64) -> (r: Result<&Transaction, Error>)
        ensures
            1 <= tx_id <= self.transactions@.len() ==> (r matches Ok(t) && *t
                == self.transactions@[tx_id - 1]),
            !(1 <= tx_id <= self.transactions@.len()) ==> r == Err::<&Transaction, Error>(
                Error::TransactionNotFound,
            ),
    {
        if tx_id >= 1 && tx_id <= self.transactions.len() as u64 {
            let idx = (tx_id - 1) as usize;
            Ok(&self.transactions[idx])
        } else {
            Err(Error::TransactionNotFound)
        }
    }

    /// The signer set, in insertion order.
    pub fn get_signers(&self) -> (r: &Vec<Address>)
        ensures
            r@ == self.signers@,
    {
        &self.signers
    }
}

/// For a well-formed, initialized treasury: the balance is never negative and
/// always equals the deposits minus the executed withdrawals, and every
/// transaction's approval list is duplicate-free.
pub proof fn lemma_treasury_accounting(t: TreasuryContract)
    requires
        t.wf(),
        t.initialized,
    ensures
        t.balance >= 0,
        t.balance == t.deposited@ - executed_total(t.transactions@),
        forall|i: int|
            0 <= i < t.transactions@.len() ==> unique_addrs(
                (#[trigger] t.transactions@[i]).approvals@,
            ),
{
    assert forall|i: int| 0 <= i < t.transactions@.len() implies unique_addrs(
        (#[trigger] t.transactions@[i]).approvals@,
    ) by {
        assert(tx_wf_at(t.transactions@, i));
    }
}

/// Successful withdrawal proposals hand out strictly increasing ids with no
/// gaps: the transaction at ledger index `i` carries id `i + 1`.
pub proof fn lemma_tx_ids_strictly_increasing(t: TreasuryContract)
    requires
        t.wf(),
        t.initialized,
    ensures
        forall|i: int|
            0 <= i < t.transactions@.len() ==> (#[trigger] t.transactions@[i]).id == i + 1,
        forall|i: int, j: int|
            0 <= i < j < t.transactions@.len() ==> t.transactions@[i].id < t.transactions@[j].id,
        t.tx_counter == t.transactions@.len(),
{
    assert forall|i: int| 0 <= i < t.transactions@.len() implies (#[trigger] t.transactions@[i]).id
        == i + 1 by {
        assert(tx_wf_at(t.transactions@, i));
    }
}

} // verus!
