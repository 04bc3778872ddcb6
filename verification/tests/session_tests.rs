use chat_core::rooms::RoomRegistry;
use chat_core::session::{ClientSession, Frame, SessionState};
use chat_core::sessions::SessionRegistry;

#[test]
fn broadcast_reaches_every_attached_session_including_sender() {
    let mut rooms = RoomRegistry::new();
    let room = rooms.create_room(&"general".to_string(), &"alice".to_string());

    let mut registry = SessionRegistry::new();
    let mut alice = ClientSession::begin(room.id, "alice".to_string());
    alice.attach(&mut registry);
    let mut bob = ClientSession::begin(room.id, "bob".to_string());
    bob.attach(&mut registry);

    let outcome = bob.on_frame(Frame::Text("hi".to_string()), &registry, &mut rooms);
    assert!(outcome.reply.is_none());
    assert_eq!(outcome.deliveries.len(), 2);

    let mut delivered_to = Vec::new();
    for delivery in &outcome.deliveries {
        assert_eq!(delivery.message.room_id, room.id);
        assert_eq!(delivery.message.sender, "bob");
        assert_eq!(delivery.message.content, "hi");
        delivered_to.push(delivery.handle);
    }
    assert!(delivered_to.contains(&alice.handle));
    assert!(delivered_to.contains(&bob.handle));

    // each session writes the raw content to its own connection
    let alice_payload = alice.deliver(&outcome.deliveries[0].message);
    assert_eq!(alice_payload.as_deref(), Some("hi"));

    let listed = rooms.list_rooms();
    assert_eq!(listed[0].message_log.len(), 1);
    assert_eq!(listed[0].message_log[0].content, "hi");
    assert_eq!(listed[0].message_log[0].sender, "bob");
}

#[test]
fn detached_session_gets_no_further_deliveries() {
    let mut rooms = RoomRegistry::new();
    let room = rooms.create_room(&"general".to_string(), &"alice".to_string());

    let mut registry = SessionRegistry::new();
    let mut alice = ClientSession::begin(room.id, "alice".to_string());
    alice.attach(&mut registry);
    let mut bob = ClientSession::begin(room.id, "bob".to_string());
    bob.attach(&mut registry);

    bob.close(&mut registry);
    assert_eq!(bob.state, SessionState::Closed);
    assert!(!registry.snapshot(room.id).contains(&bob.handle));

    let outcome = alice.on_frame(Frame::Text("anyone?".to_string()), &registry, &mut rooms);
    assert_eq!(outcome.deliveries.len(), 1);
    assert_eq!(outcome.deliveries[0].handle, alice.handle);
    assert!(outcome.deliveries.iter().all(|d| d.handle != bob.handle));
}

#[test]
fn double_close_of_the_connection_is_harmless() {
    let mut registry = SessionRegistry::new();
    let mut alice = ClientSession::begin(9, "alice".to_string());
    alice.attach(&mut registry);
    registry.detach(9, alice.handle);
    // the session's own close runs after an abnormal detach already happened
    alice.close(&mut registry);
    assert!(registry.snapshot(9).is_empty());
}

#[test]
fn non_text_frame_replies_to_sender_only_and_records_nothing() {
    let mut rooms = RoomRegistry::new();
    let room = rooms.create_room(&"general".to_string(), &"alice".to_string());

    let mut registry = SessionRegistry::new();
    let mut alice = ClientSession::begin(room.id, "alice".to_string());
    alice.attach(&mut registry);
    let mut bob = ClientSession::begin(room.id, "bob".to_string());
    bob.attach(&mut registry);

    let outcome = bob.on_frame(Frame::NonText, &registry, &mut rooms);
    assert_eq!(outcome.reply.as_deref(), Some("Received non-text message."));
    assert!(outcome.deliveries.is_empty());
    assert!(rooms.list_rooms()[0].message_log.is_empty());
}

#[test]
fn text_for_room_without_entry_is_a_no_op() {
    let mut rooms = RoomRegistry::new();
    let room = rooms.create_room(&"general".to_string(), &"alice".to_string());

    let registry = SessionRegistry::new();
    let ghostless = ClientSession::begin(room.id, "alice".to_string());
    // never attached: the room has no session entry at all
    let mut attached = ClientSession::begin(room.id, "alice".to_string());
    let mut other_registry = SessionRegistry::new();
    attached.attach(&mut other_registry);
    drop(ghostless);

    let outcome = attached.on_frame(Frame::Text("hello".to_string()), &registry, &mut rooms);
    assert!(outcome.reply.is_none());
    assert!(outcome.deliveries.is_empty());
    assert!(rooms.list_rooms()[0].message_log.is_empty());
}

#[test]
fn delivery_is_filtered_by_room() {
    let mut registry = SessionRegistry::new();
    let mut alice = ClientSession::begin(1, "alice".to_string());
    alice.attach(&mut registry);
    let message = chat_core::rooms::Message {
        room_id: 2,
        sender: "bob".to_string(),
        content: "elsewhere".to_string(),
    };
    assert_eq!(alice.deliver(&message), None);
}

#[test]
fn sessions_in_different_rooms_do_not_hear_each_other() {
    let mut rooms = RoomRegistry::new();
    let one = rooms.create_room(&"one".to_string(), &"alice".to_string());
    let two = rooms.create_room(&"two".to_string(), &"bob".to_string());

    let mut registry = SessionRegistry::new();
    let mut alice = ClientSession::begin(one.id, "alice".to_string());
    alice.attach(&mut registry);
    let mut bob = ClientSession::begin(two.id, "bob".to_string());
    bob.attach(&mut registry);

    let outcome = alice.on_frame(Frame::Text("private".to_string()), &registry, &mut rooms);
    assert_eq!(outcome.deliveries.len(), 1);
    assert_eq!(outcome.deliveries[0].handle, alice.handle);

    let listed = rooms.list_rooms();
    let room_one = listed.iter().find(|r| r.id == one.id).unwrap();
    let room_two = listed.iter().find(|r| r.id == two.id).unwrap();
    assert_eq!(room_one.message_log.len(), 1);
    assert!(room_two.message_log.is_empty());
}
