//! The broadcast dispatcher: one inbound text frame becomes one
//! delivery per session attached to the room, then one append to the
//! room's history.  A frame for a room that never had a session entry
//! is a no-op: nothing is sent and nothing is recorded.

use vstd::prelude::*;

use crate::rooms::{has_room, record_rooms, room_at, Message, MessageView, RoomRegistry, RoomView};
use crate::sessions::{
    entries_wf, entry_at, handles_of, has_entry, RoomSessionsView, SessionRegistry,
};

verus! {

/// One pending outbound delivery: the message, addressed to the session
/// carrying `handle`.  Performing the write is the caller's business;
/// a recipient whose connection is already gone is simply skipped.
pub struct Delivery {
    pub handle: u64,
    pub message: Message,
}

/// Mathematical image of a [`Delivery`].
#[verifier::ext_equal]
pub struct DeliveryView {
    pub handle: u64,
    pub message: MessageView,
}

impl View for Delivery {
    type V = DeliveryView;

    open spec fn view(&self) -> DeliveryView {
        DeliveryView { handle: self.handle, message: self.message@ }
    }
}

/// The deliveries one frame causes: the same message, once per handle,
/// in snapshot order.
pub open spec fn fanout(handles: Seq<u64>, m: MessageView) -> Seq<DeliveryView> {
    handles.map_values(|h: u64| DeliveryView { handle: h, message: m })
}

/// Fans one inbound text frame out.  When the room has a session entry,
/// the frame becomes a message that is addressed to every handle in the
/// entry — the sender's own included — and appended to the room's
/// history; when it has none, nothing is sent and nothing is recorded.
pub fn dispatch_text(
    sessions: &SessionRegistry,
    rooms: &mut RoomRegistry,
    room_id: u128,
    sender: &String,
    content: &String,
) -> (deliveries: Vec<Delivery>)
    requires
        sessions.wf(),
        old(rooms).wf(),
    ensures
        final(rooms).wf(),
        ({
            let m = MessageView { room_id, sender: sender@, content: content@ };
            if has_entry(sessions@, room_id) {
                &&& deliveries@.len() == handles_of(sessions@, room_id).len()
                &&& deliveries@.map_values(|d: Delivery| d@) == fanout(
                    handles_of(sessions@, room_id),
                    m,
                )
                &&& final(rooms)@ == record_rooms(old(rooms)@, room_id, m)
            } else {
                &&& deliveries@.len() == 0
                &&& final(rooms)@ == old(rooms)@
            }
        }),
{
    let mut deliveries: Vec<Delivery> = Vec::new();
    if sessions.has_room_entry(room_id) {
        let message = Message {
            room_id,
            sender: sender.clone(),
            content: content.clone(),
        };
        let handles = sessions.snapshot(room_id);
        let n = handles.len();
        let mut i: usize = 0;
        while i < n
            invariant
                i <= n,
                n == handles@.len(),
                deliveries@.len() == i,
                message@ == (MessageView { room_id, sender: sender@, content: content@ }),
                deliveries@.map_values(|d: Delivery| d@) =~= fanout(
                    handles@.take(i as int),
                    message@,
                ),
            decreases n - i,
        {
            let ghost dels0 = deliveries@;
            let copy = message.clone();
            deliveries.push(Delivery { handle: handles[i], message: copy });
            proof {
                assert forall|k: int| #![trigger deliveries@[k]] 0 <= k <= i as int implies deliveries@.map_values(
                    |d: Delivery| d@,
                )[k] == fanout(handles@.take(i as int + 1), message@)[k] by {
                    assert(fanout(handles@.take(i as int + 1), message@)[k] == (DeliveryView {
                        handle: handles@[k],
                        message: message@,
                    }));
                    if k < i as int {
                        assert(deliveries@[k] == dels0[k]);
                        assert(dels0.map_values(|d: Delivery| d@)[k] == fanout(
                            handles@.take(i as int),
                            message@,
                        )[k]);
                    } else {
                        assert(deliveries@[k]@ == (DeliveryView {
                            handle: handles@[i as int],
                            message: message@,
                        }));
                    }
                }
                assert(deliveries@.map_values(|d: Delivery| d@) =~= fanout(
                    handles@.take(i as int + 1),
                    message@,
                ));
            }
            i += 1;
        }
        proof {
            assert(handles@.take(n as int) =~= handles@);
        }
        rooms.append_message(room_id, message);
    }
    deliveries
}

/// Law: when sessions are attached to a room and one of them sends,
/// the room's history gains exactly one entry — the message itself —
/// and every attached handle, the sender's own included, is addressed
/// exactly once with that message.
pub proof fn lemma_broadcast_fanout(
    sessions: Seq<RoomSessionsView>,
    rooms: Seq<RoomView>,
    room_id: u128,
    m: MessageView,
    next: u64,
)
    requires
        entries_wf(sessions, next),
        has_entry(sessions, room_id),
        forall|p: int, q: int|
            0 <= p < q < rooms.len() ==> #[trigger] rooms[p].id != #[trigger] rooms[q].id,
        has_room(rooms, room_id),
    ensures
        record_rooms(rooms, room_id, m).len() == rooms.len(),
        record_rooms(rooms, room_id, m)[room_at(rooms, room_id)].log == rooms[room_at(
            rooms,
            room_id,
        )].log.push(m),
        forall|k: int|
            0 <= k < rooms.len() && k != room_at(rooms, room_id) ==> #[trigger] record_rooms(
                rooms,
                room_id,
                m,
            )[k] == rooms[k],
        fanout(handles_of(sessions, room_id), m).len() == handles_of(sessions, room_id).len(),
        forall|h: u64|
            #[trigger] handles_of(sessions, room_id).contains(h) ==> exists|d: int|
                0 <= d < fanout(handles_of(sessions, room_id), m).len() && fanout(
                    handles_of(sessions, room_id),
                    m,
                )[d] == (DeliveryView { handle: h, message: m }),
        forall|d1: int, d2: int|
            0 <= d1 < d2 < fanout(handles_of(sessions, room_id), m).len() ==> #[trigger] fanout(
                handles_of(sessions, room_id),
                m,
            )[d1].handle != #[trigger] fanout(handles_of(sessions, room_id), m)[d2].handle,
{
    let e = entry_at(sessions, room_id);
    assert(0 <= e < sessions.len() && sessions[e].room_id == room_id);
    let hs = handles_of(sessions, room_id);
    assert(hs == sessions[e].handles);
    assert forall|h: u64| #[trigger] hs.contains(h) implies exists|d: int|
        0 <= d < fanout(hs, m).len() && fanout(hs, m)[d] == (DeliveryView {
            handle: h,
            message: m,
        }) by {
        let k = choose|k: int| 0 <= k < hs.len() && hs[k] == h;
        assert(fanout(hs, m)[k] == (DeliveryView { handle: h, message: m }));
    }
    assert forall|d1: int, d2: int| 0 <= d1 < d2 < fanout(hs, m).len() implies #[trigger] fanout(
        hs,
        m,
    )[d1].handle != #[trigger] fanout(hs, m)[d2].handle by {
        assert(sessions[e].handles[d1] != sessions[e].handles[d2]);
    }
}

/// Law: a session that has detached is addressed by no later fan-out
/// for its room — once its handle is out of the room's entry, no
/// delivery for that room carries it.
pub proof fn lemma_detached_receives_nothing(hs: Seq<u64>, handle: u64, m: MessageView)
    requires
        !hs.contains(handle),
    ensures
        forall|d: int| 0 <= d < fanout(hs, m).len() ==> #[trigger] fanout(hs, m)[d].handle != handle,
{
    assert forall|d: int| 0 <= d < fanout(hs, m).len() implies #[trigger] fanout(hs, m)[d].handle
        != handle by {
        if hs[d] == handle {
            assert(hs.contains(handle));
        }
    }
}

} // verus!
