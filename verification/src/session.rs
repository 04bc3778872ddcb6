//! One live connection's binding to a room: the client session state
//! machine.  A session connects, attaches to its room exactly once, and
//! closes exactly once; while attached it turns inbound frames into
//! broadcasts and writes broadcast messages out to its own connection.

use vstd::prelude::*;
use vstd::string::StringExecFns;

use crate::dispatch::{dispatch_text, fanout, Delivery};
use crate::rooms::{record_rooms, Message, MessageView, RoomRegistry};
use crate::sessions::{handles_of, has_entry, registered, remove_handle, SessionRegistry};

verus! {

/// Where a session stands in its life.  Attaching is the only way out
/// of `Connecting`, closing is terminal, and a closed session is never
/// reused.
#[derive(PartialEq, Eq, Structural, Clone, Copy, Debug)]
pub enum SessionState {
    Connecting,
    Attached,
    Closed,
}

/// One inbound frame, as far as the session cares: a text payload, or
/// anything else.
pub enum Frame {
    Text(String),
    NonText,
}

/// What handling one inbound frame produced: deliveries addressed to
/// the room's sessions, and possibly a diagnostic reply for the
/// sender's own connection.
pub struct FrameOutcome {
    pub deliveries: Vec<Delivery>,
    pub reply: Option<String>,
}

/// One live connection, bound to a single room for its whole life.
pub struct ClientSession {
    pub handle: u64,
    pub room_id: u128,
    pub username: String,
    pub state: SessionState,
}

impl ClientSession {
    /// A connection whose parameters resolved: bound to its room and
    /// carrying its username, registered nowhere yet.  The handle means
    /// nothing until [`ClientSession::attach`] draws one.
    pub fn begin(room_id: u128, username: String) -> (s: ClientSession)
        ensures
            s.state == SessionState::Connecting,
            s.room_id == room_id,
            s.username == username,
    {
        ClientSession { handle: 0, room_id, username, state: SessionState::Connecting }
    }

    /// The one entry point into `Attached`: draws a fresh handle and
    /// registers it under the session's room.  There is no re-attach.
    pub fn attach(&mut self, registry: &mut SessionRegistry)
        requires
            old(self).state == SessionState::Connecting,
            old(registry).wf(),
            old(registry).next_handle < u64::MAX,
        ensures
            final(self).state == SessionState::Attached,
            final(self).room_id == old(self).room_id,
            final(self).username == old(self).username,
            final(registry).wf(),
            !registered(old(registry)@, final(self).handle),
            registered(final(registry)@, final(self).handle),
            handles_of(final(registry)@, old(self).room_id) == handles_of(
                old(registry)@,
                old(self).room_id,
            ).push(final(self).handle),
            forall|r: u128|
                r != old(self).room_id ==> #[trigger] handles_of(final(registry)@, r)
                    == handles_of(old(registry)@, r),
            forall|r: u128|
                #[trigger] has_entry(final(registry)@, r) <==> (has_entry(old(registry)@, r) || r
                    == old(self).room_id),
    {
        let h = registry.fresh_handle();
        registry.attach(self.room_id, h);
        self.handle = h;
        self.state = SessionState::Attached;
    }

    /// The one way out: unregisters the handle first — the registry
    /// never holds a handle of a closed session — then the session is
    /// closed for good.
    pub fn close(&mut self, registry: &mut SessionRegistry)
        requires
            old(self).state == SessionState::Attached,
            old(registry).wf(),
        ensures
            final(self).state == SessionState::Closed,
            final(self).handle == old(self).handle,
            final(self).room_id == old(self).room_id,
            final(self).username == old(self).username,
            final(registry).wf(),
            handles_of(final(registry)@, old(self).room_id) == remove_handle(
                handles_of(old(registry)@, old(self).room_id),
                old(self).handle,
            ),
            !handles_of(final(registry)@, old(self).room_id).contains(old(self).handle),
            forall|r: u128|
                r != old(self).room_id ==> #[trigger] handles_of(final(registry)@, r)
                    == handles_of(old(registry)@, r),
            forall|r: u128|
                #[trigger] has_entry(final(registry)@, r) <==> has_entry(old(registry)@, r),
    {
        registry.detach(self.room_id, self.handle);
        self.state = SessionState::Closed;
    }

    /// Handles one inbound frame while attached.  A text frame is
    /// broadcast to the session's room and recorded in its history; any
    /// other frame draws a diagnostic reply to this connection alone —
    /// no delivery to anyone else, no history write — and the session
    /// stays attached.
    pub fn on_frame(
        &self,
        frame: Frame,
        sessions: &SessionRegistry,
        rooms: &mut RoomRegistry,
    ) -> (outcome: FrameOutcome)
        requires
            self.state == SessionState::Attached,
            sessions.wf(),
            old(rooms).wf(),
        ensures
            final(rooms).wf(),
            match frame {
                Frame::Text(content) => {
                    let m = MessageView {
                        room_id: self.room_id,
                        sender: self.username@,
                        content: content@,
                    };
                    &&& outcome.reply is None
                    &&& if has_entry(sessions@, self.room_id) {
                        &&& outcome.deliveries@.map_values(|d: Delivery| d@) == fanout(
                            handles_of(sessions@, self.room_id),
                            m,
                        )
                        &&& final(rooms)@ == record_rooms(old(rooms)@, self.room_id, m)
                    } else {
                        &&& outcome.deliveries@.len() == 0
                        &&& final(rooms)@ == old(rooms)@
                    }
                },
                Frame::NonText => {
                    &&& outcome.reply matches Some(w) && w@ == "Received non-text message."@
                    &&& outcome.deliveries@.len() == 0
                    &&& final(rooms)@ == old(rooms)@
                },
            },
    {
        match frame {
            Frame::Text(content) => {
                let deliveries = dispatch_text(
                    sessions,
                    rooms,
                    self.room_id,
                    &self.username,
                    &content,
                );
                FrameOutcome { deliveries, reply: None }
            },
            Frame::NonText => FrameOutcome {
                deliveries: Vec::new(),
                reply: Some(String::from_str("Received non-text message.")),
            },
        }
    }

    /// Writes one broadcast message out: the payload for this
    /// connection is the message's bare content, and only a message for
    /// this session's own room produces one.
    pub fn deliver(&self, message: &Message) -> (payload: Option<String>)
        requires
            self.state == SessionState::Attached,
        ensures
            message@.room_id == self.room_id ==> (payload matches Some(p) && p@
                == message@.content),
            message@.room_id != self.room_id ==> payload is None,
    {
        if message.room_id == self.room_id {
            Some(message.content.clone())
        } else {
            None
        }
    }
}

} // verus!
