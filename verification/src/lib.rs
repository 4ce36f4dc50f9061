//! Verified core of the `orx` local tooling.

pub mod cards;
pub mod catalog;
pub mod collections;
pub mod config;
pub mod detect;
pub mod document;
pub mod events;
pub mod export;
pub mod forms;
pub mod json;
pub mod localbox;
pub mod native;
pub mod polling;
pub mod probes;
pub mod requests;
pub mod session;
pub mod setup;
pub mod sys;
pub mod text;
pub mod turn;
pub mod update;
pub mod wire;
