//! Ingestion core for append-only chat logs: the line grammar, the resume
//! search over a log's bytes, the backfill batching and the live tail, each
//! with a contract that Verus proves.
//!
//! The search and the backfill come twice: over a file held in memory
//! (`seek`, `backfill`), and in steps that ask for the bytes they need
//! (`steps`, `backfill::Backfill`), for a file that stays on disk. Both are
//! proved to give what the same specification says.

pub mod backfill;
pub mod broadcast;
pub mod config;
pub mod insert;
pub mod line;
pub mod model;
pub mod read;
pub mod seek;
pub mod seek_lemmas;
pub mod steps;
pub mod tail;
pub mod trusted;
pub mod weechat;

pub use crate::broadcast::MessageEvent;
pub use crate::config::Config;
pub use crate::line::{line_to_new_message, DatedIrcLine, IrcLine, Logger, ParseResult};
pub use crate::model::{Datetime, Message, NewMessage, ServerChannel};
pub use crate::seek::seek_past_line;
