//! Verified core of a tribe membership backend: wallet linking by signed
//! challenge, tribe-scoped admin resolution, and audited mutations.

pub mod access;
pub mod admin;
pub mod audit;
pub mod auth;
pub mod config;
pub mod coordinator;
pub mod errors;
pub mod helpers;
pub mod listing;
pub mod matching;
pub mod models;
pub mod mumble;
pub mod notes;
pub mod platform;
pub mod registry;
pub mod roster;
pub mod seqs;
pub mod service;
pub mod sorting;
pub mod state;
pub mod text;
pub mod tokens;
pub mod tribes;
pub mod wallet;
