//! Operator tooling for a fleet of PoA token contracts that share one factory
//! account: replacing the deployed code of every contract in an operator-supplied
//! list (with mandatory backups and a temporary access grant per target), and a
//! separate storage-deposit funding helper.
//!
//! The contract-replacement protocol is modelled as an explicit state machine
//! (`orchestrator`): the machine makes every decision and records which
//! transactions it asks for, while an unverified front end performs the actual
//! file and network work and feeds the outcomes back in.

pub mod balance;
pub mod commands;
pub mod errors;
pub mod orchestrator;
pub mod paths;
pub mod run_options;
pub mod seed;
pub mod storage_deposit;
pub mod subtoken;
pub mod textutil;
