//! A bakery that sells cake by the portion: the cake tray, the customer
//! queues, the workers' service decisions and the daily statistics, each
//! with a contract proved by Verus.

pub mod customers;
pub mod ledger;
pub mod prototype;
mod random;
pub mod stats;
pub mod tray;
pub mod worker;
