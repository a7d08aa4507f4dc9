//! Waiting lines for arcade cabinets.
//!
//! Every cabinet has its own line of player names. A line is stored as rows
//! of one shared table, each row holding the cabinet, the name and a 1-based
//! position. The engine keeps the positions of every cabinet dense (exactly
//! `1..=k` for `k` waiting players) and the names of a cabinet distinct while
//! players join, leave, are served or let the next player pass.

pub mod action;
pub mod cabinet;
pub mod cli;
pub mod engine;
pub mod entry;
pub mod error;
pub mod laws;
pub mod lemmas;
pub mod line;
pub mod plan;
pub mod response;
pub mod retry;
pub mod store;
pub mod table;
pub mod transitions;
pub mod uuid_text;

pub use action::StoreAction;
pub use cabinet::CabinetId;
pub use cli::Args;
pub use engine::QueueEngine;
pub use entry::QueueEntry;
pub use error::Error;
pub use response::{Response, Status};
pub use store::QueueStore;
