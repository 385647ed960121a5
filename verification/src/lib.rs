//! A plain-text double-entry accounting core: decimals, amounts,
//! inventories, a dated price grip, a directive model, and the
//! deterministic ledger processor, all with verified contracts.
pub mod amount;
pub mod bridge;
pub mod decimal;
pub mod directive;
pub mod error;
pub mod inventory;
pub mod laws;
pub mod ledger;
pub mod price_grip;
pub mod process;
pub mod response;
pub mod semantics;
pub mod table;
