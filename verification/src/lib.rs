pub mod address;
pub mod engine;
pub mod errors;
pub mod laws;
pub mod ledger;
