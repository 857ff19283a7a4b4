//! Settlement engine for pari-mutuel prediction markets on sports events.

pub mod arith;
pub mod contract;
pub mod decider;
pub mod ledger;
pub mod matcher;
pub mod model;
pub mod numbers;
pub mod oracle;
pub mod provider;
pub mod text;
