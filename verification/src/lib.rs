//! Schema reconciliation for a relational database: the ordered manifest of
//! migrations, the decisions of the reconciliation loop, the history they
//! work on, the skip toggle, the pool targets and the statements sent.

pub mod connect;
pub mod history;
pub mod manifest;
pub mod pool;
pub mod reconcile;
pub mod role;
pub mod runner;
pub mod sql;
pub mod theorems;
pub mod toggle;
