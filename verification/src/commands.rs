//! The commands of the program, and what each of them does to the store and
//! answers.

use vstd::prelude::*;
use vstd::pervasive::unreached;
use crate::db::{Database, records};
use crate::models::{QueryResponse, Record};
use crate::table::{
    cleaned, dismissed, is_listing, marked_read, panes_of, pruned, unread_records, upserted,
    well_formed,
};
use crate::text::{parse_valid_panes, texts, valid_panes_of};

verus! {

/// One command, as the caller gave it.
#[derive(Debug, Clone)]
pub enum Command {
    /// Adds a notification for a pane, then cleans up.
    Add { title: String, message: String, pane: String, retention: i64 },
    /// Lists every notification.
    Query,
    /// Counts the windows that hold a pane with an unread notification, each
    /// window once. The store names the panes; which window a pane lies in only
    /// the terminal multiplexer knows, so the count is made of its answers.
    Count,
    /// Marks a pane's notification as read.
    MarkRead { pane: String },
    /// Deletes a pane's notification.
    Dismiss { pane: String },
    /// Deletes the notifications that are older than so many hours.
    Cleanup { retention: i64 },
    /// Deletes the notifications of all panes but those of a list with commas.
    Prune { valid_panes: String },
    /// Deletes the store file.
    Reset,
}

/// What a command on the store answers.
#[derive(Debug, Clone)]
pub enum Reply {
    /// The command was carried out.
    Done,
    /// The notifications, newest first.
    Listing(QueryResponse),
    /// The panes with an unread notification. Their windows are still to be
    /// asked for and counted.
    UnreadPanes(Vec<String>),
    /// So many notifications were too old.
    Deleted(usize),
    /// So many notifications belonged to panes that are gone.
    Pruned(usize),
}

/// What a reset answers.
#[derive(Debug, Clone, Copy, PartialEq, Eq, Structural)]
pub enum ResetReply {
    /// There was a store file, and it is to be removed.
    Removed,
    /// There was no store file, and nothing is to be done.
    Missing,
}

/// The store after a command at the time `now`.
pub open spec fn store_after(t: Seq<Record>, command: Command, now: int) -> Seq<Record> {
    match command {
        Command::Add { title, message, pane, retention } => cleaned(
            upserted(t, pane@, title@, message@, now),
            now,
            retention as int,
        ),
        Command::MarkRead { pane } => marked_read(t, pane@),
        Command::Dismiss { pane } => dismissed(t, pane@),
        Command::Cleanup { retention } => cleaned(t, now, retention as int),
        Command::Prune { valid_panes } => pruned(t, valid_panes_of(valid_panes@)),
        Command::Query => t,
        Command::Count => t,
        Command::Reset => t,
    }
}

/// Whether `reply` is the answer to a command on the store `t` at the time `now`.
pub open spec fn is_reply(reply: Reply, t: Seq<Record>, command: Command, now: int) -> bool {
    match command {
        Command::Add { .. } => reply is Done,
        Command::MarkRead { .. } => reply is Done,
        Command::Dismiss { .. } => reply is Done,
        Command::Query => reply matches Reply::Listing(response) && response.ok && is_listing(
            records(response.notifications@),
            t,
        ),
        Command::Count => reply matches Reply::UnreadPanes(panes) && texts(panes@) == panes_of(
            unread_records(t),
        ),
        Command::Cleanup { .. } => reply matches Reply::Deleted(n) && n == t.len() - store_after(
            t,
            command,
            now,
        ).len(),
        Command::Prune { .. } => reply matches Reply::Pruned(n) && n == t.len() - store_after(
            t,
            command,
            now,
        ).len(),
        Command::Reset => false,
    }
}

/// Whether a command can change the store, so that the store has to be written
/// back after it.
pub open spec fn changes_store(command: Command) -> bool {
    match command {
        Command::Add { .. } => true,
        Command::MarkRead { .. } => true,
        Command::Dismiss { .. } => true,
        Command::Cleanup { .. } => true,
        Command::Prune { .. } => true,
        Command::Query => false,
        Command::Count => false,
        Command::Reset => false,
    }
}

/// What a reset answers where the store file exists, and where it does not.
pub open spec fn reset_reply(exists: bool) -> ResetReply {
    if exists {
        ResetReply::Removed
    } else {
        ResetReply::Missing
    }
}

/// Whether there is a store file once a reset was answered and carried out.
pub open spec fn exists_after_reset(exists: bool) -> bool {
    exists && !(reset_reply(exists) is Removed)
}

impl Command {
    /// Whether the command works on the opened store. A reset does not: it is
    /// decided before any store is opened, so that asking never creates one.
    pub fn needs_store(&self) -> (needed: bool)
        ensures
            needed == !(*self is Reset),
    {
        match self {
            Command::Reset => false,
            _ => true,
        }
    }

    /// Whether the store has to be written back after the command.
    pub fn writes(&self) -> (written: bool)
        ensures
            written == changes_store(*self),
    {
        match self {
            Command::Query => false,
            Command::Count => false,
            Command::Reset => false,
            _ => true,
        }
    }
}

/// Decides a reset from whether the store file exists.
pub fn reset(exists: bool) -> (reply: ResetReply)
    ensures
        reply == reset_reply(exists),
{
    if exists {
        ResetReply::Removed
    } else {
        ResetReply::Missing
    }
}

/// Carries out one command on the opened store at the time `now`.
pub fn run(db: &mut Database, command: &Command, now: i64) -> (reply: Reply)
    requires
        !(*command is Reset),
    ensures
        final(db)@ == store_after(old(db)@, *command, now as int),
        is_reply(reply, old(db)@, *command, now as int),
        well_formed(final(db)@),
{
    match command {
        Command::Add { title, message, pane, retention } => {
            db.add(pane.as_str(), title.as_str(), message.as_str(), now);
            db.cleanup(*retention, now);
            Reply::Done
        },
        Command::Query => {
            let notifications = db.query();
            Reply::Listing(QueryResponse::new(notifications))
        },
        Command::Count => {
            let panes = db.unread_panes();
            Reply::UnreadPanes(panes)
        },
        Command::MarkRead { pane } => {
            db.mark_read(pane.as_str());
            Reply::Done
        },
        Command::Dismiss { pane } => {
            db.dismiss(pane.as_str());
            Reply::Done
        },
        Command::Cleanup { retention } => {
            let deleted = db.cleanup(*retention, now);
            Reply::Deleted(deleted)
        },
        Command::Prune { valid_panes } => {
            let panes = parse_valid_panes(valid_panes.as_str());
            let pruned = db.prune(panes.as_slice());
            Reply::Pruned(pruned)
        },
        Command::Reset => unreached(),
    }
}

/// A command that is not written back has changed nothing.
pub proof fn reading_changes_nothing(t: Seq<Record>, command: Command, now: int)
    requires
        !changes_store(command),
    ensures
        store_after(t, command, now) == t,
{
}

/// A second reset in a row finds no store file, and says so: whatever the
/// first one found, the file that it had removed is gone.
pub proof fn reset_twice(exists: bool)
    ensures
        !exists_after_reset(exists),
        reset_reply(exists_after_reset(exists)) == ResetReply::Missing,
        reset_reply(false) == ResetReply::Missing,
{
}

} // verus!
