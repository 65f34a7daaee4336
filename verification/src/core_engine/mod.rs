pub mod amount;
pub mod engine;
pub mod laws;
pub mod order;
pub mod orderbook;
pub mod volume;
