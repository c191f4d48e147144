//! A verifiable-SQL proof engine: committed columnar data, a Dory-style
//! pairing commitment with an inner-product argument, sum-check builders,
//! and provable query-plan expressions.
#![allow(non_snake_case)]

pub mod identifier;
pub mod scalar;
pub mod column;
pub mod group_by;
pub mod polynomial;
pub mod parser;
pub mod transcript;
pub mod builders;
pub mod proof_exprs;
pub mod plans;
pub mod commitment;
pub mod subtraction;
pub mod encode;
pub mod query;
pub mod dory;
