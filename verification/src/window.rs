//! The rolling window of session information.

use vstd::prelude::*;

use crate::primitives::{SessionIndex, SessionInfo};
use crate::APPROVAL_SESSIONS;

verus! {

/// A rolling window of contiguous sessions ending at the latest session
/// the subsystem has seen.
///
/// Entry `i` of `session_info` describes session `earliest_session + i`.
#[derive(Clone, Debug, PartialEq, Eq)]
pub struct RollingSessionWindow {
    /// The first session the window covers, `None` while the window is
    /// still empty.
    pub earliest_session: Option<SessionIndex>,
    /// The information of the covered sessions, in session order.
    pub session_info: Vec<SessionInfo>,
}

impl RollingSessionWindow {
    /// Shape invariant of a window: the window is empty exactly when no
    /// earliest session is set, covers at most [`APPROVAL_SESSIONS`]
    /// sessions, and its last covered session index fits in the session
    /// index type.
    pub open spec fn wf(self) -> bool {
        &&& (self.earliest_session is Some <==> self.session_info@.len() > 0)
        &&& self.session_info@.len() <= APPROVAL_SESSIONS
        &&& (self.earliest_session matches Some(e)
            ==> e + self.session_info@.len() - 1 <= u32::MAX)
    }

    /// The latest covered session, if any.
    pub open spec fn latest_spec(self) -> Option<SessionIndex> {
        match self.earliest_session {
            None => None,
            Some(e) => Some((e + self.session_info@.len() - 1) as SessionIndex),
        }
    }

    /// Whether the window covers session `index`.
    pub open spec fn covers(self, index: SessionIndex) -> bool {
        match self.earliest_session {
            None => false,
            Some(e) => e <= index && index - e < self.session_info@.len(),
        }
    }

    /// The information the window holds for session `index`.
    pub open spec fn info_at(self, index: SessionIndex) -> SessionInfo
        recommends
            self.covers(index),
    {
        self.session_info@[index - self.earliest_session->Some_0]
    }

    /// An empty window, the state at startup.
    pub fn new() -> (r: RollingSessionWindow)
        ensures
            r.earliest_session is None,
            r.session_info@ == Seq::<SessionInfo>::empty(),
            r.wf(),
    {
        RollingSessionWindow { earliest_session: None, session_info: Vec::new() }
    }

    /// Looks up the information for session `index`: `None` if the index
    /// precedes the window or lies beyond its populated range.
    pub fn session_info(&self, index: SessionIndex) -> (r: Option<SessionInfo>)
        ensures
            r is Some <==> self.covers(index),
            r matches Some(info) ==> info == self.info_at(index),
    {
        match self.earliest_session {
            None => None,
            Some(earliest) => {
                if index < earliest {
                    None
                } else {
                    let offset = (index - earliest) as usize;
                    if offset < self.session_info.len() {
                        Some(self.session_info[offset])
                    } else {
                        None
                    }
                }
            }
        }
    }

    /// The latest session the window covers, `None` while it is empty.
    pub fn latest_session(&self) -> (r: Option<SessionIndex>)
        requires
            self.wf(),
        ensures
            r == self.latest_spec(),
    {
        match self.earliest_session {
            None => None,
            Some(earliest) => {
                let len: u32 = self.session_info.len() as u32;
                Some(earliest + (len - 1))
            }
        }
    }
}

} // verus!
