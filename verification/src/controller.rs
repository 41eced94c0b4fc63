//! File-level readers that turn the lines of a file into parsed rows.

pub mod orders_details;
