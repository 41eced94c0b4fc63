pub mod inserts;
