use chat_core::accounts::{AccountError, AccountStore};
use chat_core::rooms::{RegistryError, Message, RoomRegistry};

#[test]
fn created_room_is_listed_with_empty_history() {
    let mut rooms = RoomRegistry::new();
    let created = rooms.create_room(&"general".to_string(), &"alice".to_string());
    let listed = rooms.list_rooms();
    assert_eq!(listed.len(), 1);
    assert_eq!(listed[0].id, created.id);
    assert_eq!(listed[0].name, "general");
    assert_eq!(listed[0].created_by, "alice");
    assert!(listed[0].participants.is_empty());
    assert!(listed[0].message_log.is_empty());
}

#[test]
fn created_rooms_get_distinct_ids() {
    let mut rooms = RoomRegistry::new();
    let a = rooms.create_room(&"one".to_string(), &"alice".to_string());
    let b = rooms.create_room(&"two".to_string(), &"alice".to_string());
    assert_ne!(a.id, b.id);
    assert_eq!(rooms.list_rooms().len(), 2);
}

#[test]
fn add_participant_is_idempotent() {
    let mut rooms = RoomRegistry::new();
    let room = rooms.create_room(&"general".to_string(), &"alice".to_string());
    let once = rooms.add_participant(room.id, &"bob".to_string()).unwrap();
    assert_eq!(once.participants.len(), 1);
    let twice = rooms.add_participant(room.id, &"bob".to_string()).unwrap();
    assert_eq!(twice.participants.len(), 1);
    assert_eq!(twice.participants[0], "bob");
}

#[test]
fn add_participant_unknown_room_is_not_found_and_mutates_nothing() {
    let mut rooms = RoomRegistry::new();
    let room = rooms.create_room(&"general".to_string(), &"alice".to_string());
    let unknown = room.id.wrapping_add(1);
    let err = rooms.add_participant(unknown, &"bob".to_string());
    assert!(matches!(err, Err(RegistryError::NotFound)));
    let listed = rooms.list_rooms();
    assert_eq!(listed.len(), 1);
    assert!(listed[0].participants.is_empty());
    assert!(listed[0].message_log.is_empty());
}

#[test]
fn append_message_to_unknown_room_is_dropped() {
    let mut rooms = RoomRegistry::new();
    let room = rooms.create_room(&"general".to_string(), &"alice".to_string());
    let unknown = room.id.wrapping_add(1);
    let message = Message {
        room_id: unknown,
        sender: "bob".to_string(),
        content: "lost".to_string(),
    };
    rooms.append_message(unknown, message);
    let listed = rooms.list_rooms();
    assert_eq!(listed.len(), 1);
    assert!(listed[0].message_log.is_empty());
}

#[test]
fn append_message_grows_history_in_order() {
    let mut rooms = RoomRegistry::new();
    let room = rooms.create_room(&"general".to_string(), &"alice".to_string());
    for text in ["first", "second", "third"] {
        let message = Message {
            room_id: room.id,
            sender: "alice".to_string(),
            content: text.to_string(),
        };
        rooms.append_message(room.id, message);
    }
    let listed = rooms.list_rooms();
    let log = &listed[0].message_log;
    assert_eq!(log.len(), 3);
    assert_eq!(log[0].content, "first");
    assert_eq!(log[1].content, "second");
    assert_eq!(log[2].content, "third");
}

#[test]
fn register_then_login_succeeds() {
    let mut accounts = AccountStore::new();
    assert!(accounts.register(&"alice".to_string(), &"wonder".to_string()).is_ok());
    assert!(accounts.login(&"alice".to_string(), &"wonder".to_string()));
    assert!(!accounts.login(&"alice".to_string(), &"land".to_string()));
    assert!(!accounts.login(&"bob".to_string(), &"wonder".to_string()));
}

#[test]
fn register_taken_name_is_refused() {
    let mut accounts = AccountStore::new();
    assert!(accounts.register(&"alice".to_string(), &"one".to_string()).is_ok());
    let err = accounts.register(&"alice".to_string(), &"two".to_string());
    assert_eq!(err, Err(AccountError::UserExists));
    assert!(accounts.login(&"alice".to_string(), &"one".to_string()));
    assert!(!accounts.login(&"alice".to_string(), &"two".to_string()));
}
