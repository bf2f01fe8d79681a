//! The values that the session logic reads and hands back.

use std::time::Duration;
use vstd::prelude::*;

verus! {

/// A live session as a snapshot reports it: what the reconciliation reads.
#[derive(Debug, Clone)]
pub struct SessionInfo {
    pub name: String,
    pub is_current_session: bool,
}

impl SessionInfo {
    /// A copy of this record.
    pub fn duplicate(&self) -> (r: SessionInfo)
        ensures
            r == *self,
    {
        SessionInfo { name: self.name.clone(), is_current_session: self.is_current_session }
    }
}

/// An item of the session list: a live session, a resurrectable one, or a
/// directory from which a new session can be made.
#[derive(Debug)]
pub enum SessionItem {
    ExistingSession { name: String, directory: String, is_current: bool },
    ResurrectableSession { name: String, duration: Duration },
    Directory { path: String, session_name: String },
}

impl SessionItem {
    /// The name under which the item is listed: the session's own name, or for a
    /// directory the name a session made from it would get.
    pub open spec fn spec_name(&self) -> Seq<char> {
        match self {
            SessionItem::ExistingSession { name, .. } => name@,
            SessionItem::ResurrectableSession { name, .. } => name@,
            SessionItem::Directory { session_name, .. } => session_name@,
        }
    }

    /// Whether this is a live session.
    pub fn is_session(&self) -> (r: bool)
        ensures
            r == (self is ExistingSession),
    {
        matches!(self, SessionItem::ExistingSession { .. })
    }

    /// Whether this is a resurrectable session.
    pub fn is_resurrectable_session(&self) -> (r: bool)
        ensures
            r == (self is ResurrectableSession),
    {
        matches!(self, SessionItem::ResurrectableSession { .. })
    }

    pub fn name(&self) -> (r: &str)
        ensures
            r@ == self.spec_name(),
    {
        match self {
            SessionItem::ExistingSession { name, .. } => name.as_str(),
            SessionItem::ResurrectableSession { name, .. } => name.as_str(),
            SessionItem::Directory { session_name, .. } => session_name.as_str(),
        }
    }
}

/// What the user asks to do with a session.
#[derive(Debug, Clone)]
pub enum SessionAction {
    /// Switch to the session.
    Switch(String),
    /// Kill a live session, or delete a resurrectable one.
    Kill(String),
}

/// A command for the host, which carries it out without answering.
#[derive(Debug, Clone, PartialEq, Eq)]
pub enum HostCommand {
    /// Switch the client to the named session.
    Switch(String),
    /// Kill the named live session.
    KillLive(String),
    /// Delete the named resurrectable session.
    DeleteDead(String),
}

} // verus!
