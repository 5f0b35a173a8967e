//! Test environments for smart contracts: a store with iterators and gas, addresses and signatures,
//! single contracts, and whole chains with their blocks, accounts and tokens.
pub mod api;
pub mod backend;
pub mod base32;
pub mod bytes;
pub mod contract;
pub mod crypto;
pub mod errors;
pub mod mint_plan;
pub mod multi_test;
pub mod state;
pub mod storage;
pub mod test_tube;
pub mod text;
pub mod tokens;
pub mod types;

pub use api::MockApi;
pub use contract::{ContractCall, MockContract, GAS_PER_US};
pub use mint_plan::{MintAction, MintEvent, MintPlan};
pub use multi_test::MultiTestMockApp;
pub use storage::{MockStorage, StorageWrapper};
pub use test_tube::TestTubeMockApp;
pub use tokens::TokenBook;
pub use types::ExecuteResponse;
