//! Rebuilds a complete per-unit combat-modifier table for a strategy game
//! whose shipped balance table is incomplete for category-versus-category
//! pairs. Unit records give each unit its category flags; the sparse balance
//! table gives named modifiers; the dense output table composes them
//! multiplicatively and neutralizes every category-addressed cell.
pub mod balance;
pub mod bytes;
pub mod categories;
pub mod diag;
pub mod events;
pub mod laws;
pub mod matrix;
pub mod modifier;
pub mod omap;
pub mod pipeline;
pub mod rules;
pub mod writer;
