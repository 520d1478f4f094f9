//! The account pool: which account serves a request, and what each outcome does to it.

pub mod index;
pub mod state;
pub mod handle;
pub mod warm;
pub mod select;
pub mod acquire;
pub mod outcome;
pub mod account_pool;
pub mod report;
pub mod wait;
pub mod laws;
pub mod order_laws;
pub mod history_laws;
pub mod balance_laws;
pub mod effect_laws;
pub mod outcome_laws;
pub mod listing_laws;
pub mod call_laws;
