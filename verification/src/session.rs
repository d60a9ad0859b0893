//! Per-connection session state: which database, if any, the connection has
//! open. A session is owned by one connection handler and never shared.

use vstd::prelude::*;

use crate::catalog::{DatabaseHandle, DatabaseView};

verus! {

/// The session state machine: `Idle` (no open database, the view is `None`)
/// or `Open` on a database handle (the view is `Some` of that handle).
#[derive(Debug)]
pub struct Session {
    open_db: Option<DatabaseHandle>,
}

impl View for Session {
    type V = Option<int>;

    closed spec fn view(&self) -> Option<int> {
        match self.open_db {
            Some(h) => Some(h as int),
            None => None,
        }
    }
}

impl Session {
    /// A fresh session: no database open.
    pub fn new() -> (s: Session)
        ensures
            s@ is None,
    {
        Session { open_db: None }
    }

    /// A session is well formed against a catalog when its open handle, if
    /// any, resolves. The catalog only grows, so a session stays well
    /// formed against every later state of the catalog.
    pub open spec fn wf(self, cat: Seq<DatabaseView>) -> bool {
        self@ matches Some(h) ==> 0 <= h < cat.len()
    }

    /// The handle of the open database, `None` when idle.
    pub fn current(&self) -> (r: Option<DatabaseHandle>)
        ensures
            match r {
                Some(h) => self@ == Some(h as int),
                None => self@ is None,
            },
    {
        self.open_db
    }

    /// Opens the database the handle refers to; re-opening switches the
    /// active database.
    pub fn set_open(&mut self, h: DatabaseHandle)
        ensures
            final(self)@ == Some(h as int),
    {
        self.open_db = Some(h);
    }
}

} // verus!
