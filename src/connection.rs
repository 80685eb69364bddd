use vstd::prelude::*;

use crate::handshake::{
    hello_of_line, hello_reply, json_valid, negotiate, is_json, HandshakeError, Role, JOINED_REPLY,
    REJECTED_REPLY, UNSUPPORTED_REPLY,
};
use crate::registry::{fresh_member, holds, joined, left, missed, relayed, session_members, Registry};

verus! {

/// Where a connection stands in its life.
pub enum Phase {
    /// Accepted; its first frame has not come yet.
    AwaitingHello,
    /// Member of the session `key`.
    Joined { key: Vec<u8>, role: Role, version: u64 },
    /// Done with: it has left its session, if it had one, and is to be closed.
    Closed,
}

/// A phase as mathematical values.
pub enum PhaseView {
    AwaitingHello,
    Joined { key: Seq<u8>, role: Role, version: u64 },
    Closed,
}

impl View for Phase {
    type V = PhaseView;

    open spec fn view(&self) -> PhaseView {
        match self {
            Phase::AwaitingHello => PhaseView::AwaitingHello,
            Phase::Joined { key, role, version } => PhaseView::Joined { key: key@, role: *role, version: *version },
            Phase::Closed => PhaseView::Closed,
        }
    }
}

/// What the caller is to do after an event: write `reply`, if any, then
/// close the connection if `close` is set. `dropped` tells that the frame
/// was not JSON and went nowhere; `missed` counts the members whose full
/// outbox made them miss it. Both are for the caller to warn about.
#[derive(Clone, Copy, Debug, PartialEq, Eq)]
pub struct Step {
    pub reply: Option<&'static str>,
    pub close: bool,
    pub dropped: bool,
    pub missed: usize,
}

/// One accepted connection, from its hello to its teardown.
pub struct Connection {
    pub id: u64,
    pub phase: Phase,
}

impl Connection {
    /// A connection that has just been accepted.
    pub fn new(id: u64) -> (r: Connection)
        ensures
            r.id == id,
            r.phase@ == PhaseView::AwaitingHello,
    {
        Connection { id, phase: Phase::AwaitingHello }
    }

    /// Whether the connection is a member of a session.
    pub fn is_joined(&self) -> (r: bool)
        ensures
            r == (self.phase@ is Joined),
    {
        match self.phase {
            Phase::Joined { .. } => true,
            _ => false,
        }
    }

    /// Handles one frame received on this connection.
    ///
    /// The first frame is the hello. An accepted hello joins the session it
    /// names and is answered with `JOINED_REPLY`; any other is answered with
    /// an error reply, and the connection is closed without any session
    /// being touched. Once joined, each frame that is JSON goes to every
    /// other member of the session; one that is not is dropped.
    pub fn on_frame(&mut self, reg: &mut Registry, line: &[u8], now: u64) -> (r: Step)
        requires
            old(reg).wf(),
        ensures
            final(reg).wf(),
            final(reg).capacity() == old(reg).capacity(),
            final(self).id == old(self).id,
            match old(self).phase@ {
                PhaseView::AwaitingHello => match hello_of_line(line@) {
                    Ok(h) => if !holds(old(reg)@, old(self).id) {
                        &&& final(reg)@ == joined(old(reg)@, h.key, fresh_member(old(self).id, h.role, h.version), now)
                        &&& final(self).phase@ == (PhaseView::Joined { key: h.key, role: h.role, version: h.version })
                        &&& r == (Step { reply: Some(JOINED_REPLY), close: false, dropped: false, missed: 0 })
                    } else {
                        &&& final(reg)@ == old(reg)@
                        &&& final(self).phase@ == PhaseView::Closed
                        &&& r == (Step { reply: Some(REJECTED_REPLY), close: true, dropped: false, missed: 0 })
                    },
                    Err(e) => {
                        &&& final(reg)@ == old(reg)@
                        &&& final(self).phase@ == PhaseView::Closed
                        &&& r == (Step {
                            reply: Some(if e == HandshakeError::UnsupportedVersion { UNSUPPORTED_REPLY } else { REJECTED_REPLY }),
                            close: true,
                            dropped: false,
                            missed: 0,
                        })
                    },
                },
                PhaseView::Joined { key, .. } => {
                    &&& final(reg)@ == if is_json(line@) {
                        relayed(old(reg)@, key, old(self).id, line@, old(reg).capacity())
                    } else {
                        old(reg)@
                    }
                    &&& final(self).phase@ == old(self).phase@
                    &&& r.reply is None
                    &&& !r.close
                    &&& r.dropped == !is_json(line@)
                    &&& r.missed == if is_json(line@) {
                        missed(session_members(old(reg)@, key), old(self).id, old(reg).capacity())
                    } else {
                        0
                    }
                },
                PhaseView::Closed => {
                    &&& final(reg)@ == old(reg)@
                    &&& final(self).phase@ == PhaseView::Closed
                    &&& r == (Step { reply: None, close: true, dropped: false, missed: 0 })
                },
            },
    {
        match &self.phase {
            Phase::AwaitingHello => {
                let outcome = negotiate(line);
                let reply = hello_reply(&outcome);
                match outcome {
                    Ok(h) => {
                        if reg.join(h.key.as_slice(), self.id, h.role, h.version, now) {
                            self.phase = Phase::Joined { key: h.key, role: h.role, version: h.version };
                            Step { reply: Some(reply), close: false, dropped: false, missed: 0 }
                        } else {
                            self.phase = Phase::Closed;
                            Step { reply: Some(REJECTED_REPLY), close: true, dropped: false, missed: 0 }
                        }
                    },
                    Err(_) => {
                        self.phase = Phase::Closed;
                        Step { reply: Some(reply), close: true, dropped: false, missed: 0 }
                    },
                }
            },
            Phase::Joined { key, .. } => {
                if json_valid(line) {
                    let missed = reg.broadcast(key.as_slice(), self.id, line);
                    Step { reply: None, close: false, dropped: false, missed }
                } else {
                    Step { reply: None, close: false, dropped: true, missed: 0 }
                }
            },
            Phase::Closed => Step { reply: None, close: true, dropped: false, missed: 0 },
        }
    }

    /// Handles the end of the wait for a hello. A connection still waiting
    /// is rejected; one that has joined or closed is left as it is.
    pub fn on_hello_timeout(&mut self) -> (r: Step)
        ensures
            final(self).id == old(self).id,
            old(self).phase@ is AwaitingHello ==> {
                &&& final(self).phase@ == PhaseView::Closed
                &&& r == (Step { reply: Some(REJECTED_REPLY), close: true, dropped: false, missed: 0 })
            },
            !(old(self).phase@ is AwaitingHello) ==> {
                &&& final(self).phase@ == old(self).phase@
                &&& r == (Step { reply: None, close: old(self).phase@ is Closed, dropped: false, missed: 0 })
            },
    {
        match self.phase {
            Phase::AwaitingHello => {
                self.phase = Phase::Closed;
                Step { reply: Some(REJECTED_REPLY), close: true, dropped: false, missed: 0 }
            },
            Phase::Joined { .. } => Step { reply: None, close: false, dropped: false, missed: 0 },
            Phase::Closed => Step { reply: None, close: true, dropped: false, missed: 0 },
        }
    }

    /// Tears the connection down after the peer hung up, a read failed, or a
    /// frame was too long. The connection leaves its session if and only if
    /// it had joined one, and only the first call has any effect on the
    /// registry. Returns whether it left a session.
    pub fn on_hang_up(&mut self, reg: &mut Registry) -> (r: bool)
        requires
            old(reg).wf(),
        ensures
            final(reg).wf(),
            final(reg).capacity() == old(reg).capacity(),
            final(self).id == old(self).id,
            final(self).phase@ == PhaseView::Closed,
            r == (old(self).phase@ is Joined),
            match old(self).phase@ {
                PhaseView::Joined { key, .. } => final(reg)@ == left(old(reg)@, key, old(self).id),
                _ => final(reg)@ == old(reg)@,
            },
    {
        let was_joined = match &self.phase {
            Phase::Joined { key, .. } => {
                reg.leave(key.as_slice(), self.id);
                true
            },
            _ => false,
        };
        self.phase = Phase::Closed;
        was_joined
    }
}

} // verus!
