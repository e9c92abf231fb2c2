//! The records that the store holds and the values that it answers with.

use vstd::prelude::*;
use vstd::string::StringExecFns;

verus! {

/// One notification, as it is stored for a pane.
#[derive(Debug, Clone)]
pub struct Notification {
    pub pane: String,
    pub title: String,
    pub message: String,
    pub state: String,
    pub created_at: i64,
}

/// What a notification holds, as mathematical values.
pub struct Record {
    pub pane: Seq<char>,
    pub title: Seq<char>,
    pub message: Seq<char>,
    pub state: Seq<char>,
    pub created_at: int,
}

impl View for Notification {
    type V = Record;

    open spec fn view(&self) -> Record {
        Record {
            pane: self.pane@,
            title: self.title@,
            message: self.message@,
            state: self.state@,
            created_at: self.created_at as int,
        }
    }
}

/// The state of a notification that nobody has acknowledged yet.
pub open spec fn unread() -> Seq<char> {
    "unread"@
}

/// The state of a notification that was acknowledged.
pub open spec fn read() -> Seq<char> {
    "read"@
}

/// The two states are different texts.
pub proof fn states_differ()
    ensures
        unread() != read(),
{
    reveal_strlit("unread");
    reveal_strlit("read");
    assert(unread().len() == 6);
    assert(read().len() == 4);
}

/// The text of the unread state.
pub fn unread_state() -> (s: String)
    ensures
        s@ == unread(),
{
    String::from_str("unread")
}

/// The text of the read state.
pub fn read_state() -> (s: String)
    ensures
        s@ == read(),
{
    String::from_str("read")
}

impl Notification {
    /// A notification with the same fields.
    pub fn duplicate(&self) -> (copy: Notification)
        ensures
            copy == *self,
    {
        Notification {
            pane: self.pane.clone(),
            title: self.title.clone(),
            message: self.message.clone(),
            state: self.state.clone(),
            created_at: self.created_at,
        }
    }

    /// Whether nobody has acknowledged the notification yet.
    pub fn is_unread(&self) -> (b: bool)
        ensures
            b == (self@.state == unread()),
    {
        let unread = unread_state();
        self.state.eq(&unread)
    }
}

/// The answer to a listing: the notifications, newest first.
#[derive(Debug, Clone)]
pub struct QueryResponse {
    pub ok: bool,
    pub notifications: Vec<Notification>,
}

/// The answer to a command that failed.
#[derive(Debug, Clone)]
pub struct ErrorResponse {
    pub ok: bool,
    pub error: String,
}

impl QueryResponse {
    /// The answer that lists these notifications.
    pub fn new(notifications: Vec<Notification>) -> (response: QueryResponse)
        ensures
            response.ok,
            response.notifications == notifications,
    {
        QueryResponse { ok: true, notifications }
    }
}

impl ErrorResponse {
    /// The answer that reports this failure.
    pub fn new(error: String) -> (response: ErrorResponse)
        ensures
            !response.ok,
            response.error == error,
    {
        ErrorResponse { ok: false, error }
    }
}

} // verus!
