//! A small declarative rule service: rules are named predicates over dotted
//! field paths of JSON documents, kept in a store and evaluated in batches.

pub mod json;
pub mod rule;
pub mod eval;
pub mod repository;
pub mod wire;
pub mod api;
