//! Per-client session state machine: `Connecting` to `IdAssigned` to
//! `Streaming` to `Closed`. The surrounding process owns the byte stream and
//! races "input bytes ready" against "newer snapshot ready"; every decision
//! of what to do next lives here, as a pure transition function.

use vstd::prelude::*;

use crate::world::PlayerIntent;

verus! {

/// Where a session stands in its life cycle.
#[derive(Clone, Copy, PartialEq, Eq, Structural, Debug)]
pub enum SessionState {
    Connecting,
    IdAssigned,
    Streaming,
    Closed,
}

/// What the stream owner observed.
#[derive(Clone, Copy, PartialEq, Eq, Structural, Debug)]
pub enum SessionEvent {
    /// The transport delivered the bidirectional stream pair.
    Opened,
    /// The one-byte player id was written successfully.
    IdSent,
    /// A key code arrived from the client.
    KeyRead(u32),
    /// The fan-out holds a snapshot newer than the last one sent.
    SnapshotReady,
    /// The framed snapshot was written successfully.
    FrameSent,
    /// A read or write on the stream failed.
    IoError,
}

/// What the stream owner must do next.
#[derive(Clone, Copy, PartialEq, Eq, Structural, Debug)]
pub enum SessionAction {
    /// Write the one-byte player id.
    SendPlayerId,
    /// Push this intent into the input intake.
    ForwardIntent(PlayerIntent),
    /// Serialize and write the latest snapshot as one frame.
    SendSnapshot,
    /// Nothing to do.
    Ignore,
    /// Stop both arms and drop the stream.
    Shutdown,
}

/// The transition function. Any I/O error closes the session for good; a
/// closed session reacts to nothing; an event that makes no sense in the
/// current state is a protocol violation and also closes the session. The
/// other client's session shares nothing with this one, so its fate is its
/// own.
pub open spec fn session_next(state: SessionState, player_id: u8, event: SessionEvent) -> (
    SessionState,
    SessionAction,
) {
    match (state, event) {
        (_, SessionEvent::IoError) => (SessionState::Closed, SessionAction::Shutdown),
        (SessionState::Closed, _) => (SessionState::Closed, SessionAction::Ignore),
        (SessionState::Connecting, SessionEvent::Opened) => (
            SessionState::IdAssigned,
            SessionAction::SendPlayerId,
        ),
        (SessionState::IdAssigned, SessionEvent::IdSent) => (
            SessionState::Streaming,
            SessionAction::Ignore,
        ),
        (SessionState::Streaming, SessionEvent::KeyRead(key_code)) => (
            SessionState::Streaming,
            SessionAction::ForwardIntent(PlayerIntent { player_id, key_code }),
        ),
        (SessionState::Streaming, SessionEvent::SnapshotReady) => (
            SessionState::Streaming,
            SessionAction::SendSnapshot,
        ),
        (SessionState::Streaming, SessionEvent::FrameSent) => (
            SessionState::Streaming,
            SessionAction::Ignore,
        ),
        _ => (SessionState::Closed, SessionAction::Shutdown),
    }
}

/// One client's session: its assigned player id and its current state.
pub struct Session {
    pub player_id: u8,
    pub state: SessionState,
}

impl Session {
    /// A session for a freshly accepted client.
    pub fn new(player_id: u8) -> (r: Session)
        ensures
            r.player_id == player_id,
            r.state == SessionState::Connecting,
    {
        Session { player_id, state: SessionState::Connecting }
    }

    /// Feed one event; the session moves to its next state and tells the
    /// stream owner what to do.
    pub fn handle(&mut self, event: SessionEvent) -> (r: SessionAction)
        ensures
            final(self).player_id == old(self).player_id,
            (final(self).state, r) == session_next(old(self).state, old(self).player_id, event),
    {
        let next = match (self.state, event) {
            (_, SessionEvent::IoError) => (SessionState::Closed, SessionAction::Shutdown),
            (SessionState::Closed, _) => (SessionState::Closed, SessionAction::Ignore),
            (SessionState::Connecting, SessionEvent::Opened) => (
                SessionState::IdAssigned,
                SessionAction::SendPlayerId,
            ),
            (SessionState::IdAssigned, SessionEvent::IdSent) => (
                SessionState::Streaming,
                SessionAction::Ignore,
            ),
            (SessionState::Streaming, SessionEvent::KeyRead(key_code)) => (
                SessionState::Streaming,
                SessionAction::ForwardIntent(
                    PlayerIntent { player_id: self.player_id, key_code },
                ),
            ),
            (SessionState::Streaming, SessionEvent::SnapshotReady) => (
                SessionState::Streaming,
                SessionAction::SendSnapshot,
            ),
            (SessionState::Streaming, SessionEvent::FrameSent) => (
                SessionState::Streaming,
                SessionAction::Ignore,
            ),
            _ => (SessionState::Closed, SessionAction::Shutdown),
        };
        self.state = next.0;
        next.1
    }
}

/// An I/O error in either arm closes the session, from any state.
pub proof fn lemma_session_error_closes(state: SessionState, player_id: u8)
    ensures
        session_next(state, player_id, SessionEvent::IoError).0 == SessionState::Closed,
        session_next(state, player_id, SessionEvent::IoError).1 == SessionAction::Shutdown,
{
}

/// A closed session stays closed: there is no reconnect or resume.
pub proof fn lemma_session_closed_absorbing(player_id: u8, event: SessionEvent)
    ensures
        session_next(SessionState::Closed, player_id, event).0 == SessionState::Closed,
{
}

} // verus!
