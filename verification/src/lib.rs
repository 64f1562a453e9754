//! The rules of a quote board: who may see a quote, how a quote is rebuilt
//! from the rows that store it, how votes and favorites add up for a viewer,
//! and how a quote is reported, resolved and hidden.
//!
//! `state` holds the mathematical model and `store` the data that it
//! describes; `submission`, `voting`, `moderation`, `listing` and
//! `open_reports` hold the operations, each with a contract over the model;
//! `laws` holds what follows from those contracts for every state.

pub mod digest;
pub mod directory;
pub mod laws;
pub mod listing;
pub mod model;
pub mod moderation;
pub mod open_reports;
pub mod reconstruct;
pub mod reports;
pub mod response;
pub mod state;
pub mod store;
pub mod submission;
pub mod text;
pub mod voting;
