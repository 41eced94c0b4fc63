//! Turning CSV rows into typed values.

pub mod mapping;
pub mod utils;
pub mod parse;
pub mod orders;
pub mod products;
pub mod orders_details;
pub mod customers;
