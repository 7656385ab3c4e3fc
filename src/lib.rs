//! Verified core of a split-trust balance-transfer protocol: an untrusted host
//! binds a state snapshot to a block and records balances; an offline enclave
//! re-checks everything it was handed before and after replaying the transfer.
pub mod ether;
pub mod protocol;
pub mod text;
pub mod wei;
