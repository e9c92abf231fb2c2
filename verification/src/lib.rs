//! A store of notifications for the panes of a terminal multiplexer: at most
//! one notification per pane, unread until it is acknowledged, and unread again
//! only when its content changes.
//!
//! The store is a value in memory. Whoever runs a command reads the rows of the
//! store file, opens a [`db::Database`] over them, runs the command and writes
//! the rows back; reading the clock, the file and the multiplexer is theirs.
//!
//! - [`models`]: the records and the answers.
//! - [`table`]: the store as a sequence of records, and what each command makes
//!   of it.
//! - [`laws`]: what holds of every store.
//! - [`db`]: the store and its commands.
//! - [`text`]: lists of panes, and answers of the multiplexer.
//! - [`paths`]: where the store file lies.
//! - [`commands`]: the commands of the program, one by one.

pub mod commands;
pub mod db;
pub mod laws;
pub mod models;
pub mod paths;
pub mod table;
pub mod text;
