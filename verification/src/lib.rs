//! Contract identity and addressing for a local Starknet ledger: field elements,
//! canonical class hashing, storage addresses, the declare/deploy registry and the
//! mapping of L1 messages to handler transactions.
pub mod big_endian;
pub mod error;
pub mod felt;
pub mod hash;
pub mod json;
pub mod canonical;
pub mod numeral;
pub mod json_text;
pub mod traits;
pub mod contract_class;
pub mod patricia_key;
pub mod utils;
pub mod state;
pub mod system_contract;
pub mod estimate_message_fee;
