//! Message shapes, token-configuration validation, vote-option codes and the
//! storage encoding of balance ledgers shared by a token contract and a voting
//! contract.

pub mod balances;
pub mod contract;
pub mod tokens;
pub mod voting;
