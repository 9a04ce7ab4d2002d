//! Navigation of a contract's state tree, and targeted queries into it.
//!
//! A state tree is made of [`state::StateValue`] nodes. [`nav`] follows keys through it, one
//! level at a time or along a path; [`query`] answers batches of queries whose paths are given
//! as serialized keys; [`laws`] states and proves what holds of both.
pub mod bytes;
pub mod laws;
pub mod nav;
pub mod query;
pub mod state;
pub mod text;
pub mod value;
