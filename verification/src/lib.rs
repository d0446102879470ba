//! Initial coin offerings on a multi-currency ledger: projects lock their
//! own tokens, users pay in an exchange token, and the locked amounts are
//! released in proportions approved by the governance.

pub mod arith;
pub mod types;
pub mod ledger;
pub mod reward;
pub mod pallet;
pub mod laws;

