//! Merges the order books of two exchanges into one ranked summary and fans
//! that summary out to independently paced subscribers.

pub mod binance;
pub mod bitstamp;
pub mod book;
pub mod decimal;
pub mod manager;
pub mod merge;
pub mod publisher;
pub mod tracker;
