//! Core of a command fan-out system: a coordinator keeps an ordered ledger
//! of shell commands and their statuses, and broadcasts newly submitted
//! commands to every connected execution agent over per-agent bounded
//! delivery channels. Agents execute what they receive and report a terminal
//! result back; results are written into the ledger and re-broadcast so
//! every agent observes the outcome.

pub mod codec;
pub mod command;
pub mod ledger;
pub mod registry;
pub mod session;
