//! A small arithmetic-circuit engine: columns, polynomial constraint sets, lookups and
//! copy constraints, a region layouter that assigns witness cells, and a
//! satisfiability checker, together with a few chips built on top of it.
pub mod checker;
pub mod error;
pub mod expr;
pub mod fib1;
pub mod fib2;
pub mod fib3;
pub mod field;
pub mod is_zero;
pub mod is_zero2;
pub mod laws;
pub mod layout;
pub mod range_check;
pub mod system;
pub mod use_is_zero;
pub mod use_is_zero2;
