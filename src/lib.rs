//! A fungible-token ledger: balances, allowances, and the transfer, delegated
//! transfer, mint and burn operations, with conservation of the total supply
//! proved for every operation.
pub mod oracle;
pub mod storage;
pub mod table;
pub mod token;
