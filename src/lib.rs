pub mod amount;
pub mod types;
pub mod escrow;
pub mod lifecycle;
pub mod queries;
pub mod ranking;
