//! Order placement over a stock ledger: an inventory engine whose decrements
//! never drive a quantity below zero, and a coordinator that reserves every
//! line of an order or none of them.

pub mod coordinator;
pub mod events;
pub mod inventory;
pub mod model;
pub mod saga;
