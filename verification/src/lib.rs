//! Heterogeneous-list builders of path-tagged entries, modelled as
//! value-level sequences with verified contracts.
pub mod hlist;
pub mod traits;
pub mod path;
pub mod builder;
pub mod primitives;
pub mod folds;
pub mod tokens;
pub mod syntax;
pub mod symbol;
pub mod interface;
