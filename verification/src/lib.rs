//! Verified core of a CSV-to-Postgres sales ETL: header detection, column
//! configuration, row parsing, dimension-id assignment and the row plans that
//! are handed to the database layer.

pub mod text;
pub mod decimal_text;
pub mod config;
pub mod dim_values;
pub mod utils;
pub mod parser;
pub mod validation;
pub mod dates;
pub mod etl;
pub mod database;
pub mod controller;
pub use vstd::hash_map::StringHashMap;
