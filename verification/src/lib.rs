pub mod address;
pub mod assoc;
pub mod dispute;
pub mod freeze;
pub mod laws;
pub mod ledger;
