//! Governance substrate of an on-chain decentralized organization, written as
//! three cooperating state machines: an access-control role hierarchy, a
//! proposal/voting engine, and a multi-signature treasury ledger.
//!
//! The host runtime's boundary primitives (its storage, its authentication
//! oracle, its ledger clock, and its event transport) stay outside this
//! library: each contract holds its persistent state as plain fields, every
//! entry point takes the already-authenticated caller and, where needed, the
//! current ledger reading as arguments, and emitted events accumulate in an
//! in-state log. All authority rules, lifecycle transitions and checked
//! arithmetic are verified here.

pub mod access_control;
pub mod address;
pub mod governance;
pub mod seqs;
pub mod treasury;
