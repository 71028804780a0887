//! Reconciliation logic of an LDAP provider: the desired directory (users
//! and groups) is compared with the live directory, and the differences are
//! turned into a plan of add, modify and delete operations.

pub mod text;
pub mod json;
pub mod strmap;
pub mod field_value;
pub mod sort;
pub mod attrs;
pub mod plan;
pub mod desired_state;
pub mod live_state;
pub mod reconcile;
pub mod error;
pub mod ignore;
pub mod config;
pub mod runbook;
pub mod provider;
pub mod operations;
pub mod laws;
