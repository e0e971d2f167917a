//! The decisions of an observer of the Bitcoin and Stacks chains.
//!
//! An observer takes commands: blocks to cache, chain events to propagate,
//! predicates to register and to drop. It hands chain events to the evaluation of
//! the predicates, has the actions of the triggered ones carried out, and tells a
//! listener, a sidecar and a monitoring what happened.
//!
//! `transition` says what each command and each answer leads to; `observer` is
//! the machine that does it, in terms of the inputs and actions of `protocol`.
//! The parts that it is made of stand in `blocks`, `hooks`, `metrics`, `proofs`,
//! `report`, `sidecar` and `triggers`. `laws` proves what holds of the whole.

pub mod blocks;
pub mod chain;
pub mod commands;
pub mod config;
pub mod hooks;
pub mod laws;
pub mod metrics;
pub mod network;
pub mod observer;
pub mod outside;
pub mod proofs;
pub mod protocol;
pub mod report;
pub mod sidecar;
pub mod startup;
pub mod text;
pub mod transition;
pub mod triggers;
