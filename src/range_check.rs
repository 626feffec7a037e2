//! Range checks: a polynomial constraint set that vanishes exactly on `0..range`, and a
//! variant that checks large ranges by lookup into a table column.
pub mod example1;
pub mod example2;
pub mod table;
