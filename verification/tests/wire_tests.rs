use chat_core::sessions::SessionRegistry;
use chat_core::wire::{connect_request, WireError};

#[test]
fn hyphenated_room_id_resolves_to_its_value() {
    let params = connect_request("roomId=00000000-0000-0000-0000-000000000001&username=bob")
        .unwrap();
    assert_eq!(params.room_id, 1);
    assert_eq!(params.username, "bob");
}

#[test]
fn simple_form_room_id_is_accepted_too() {
    let params = connect_request("roomId=a1a2a3a4b1b2c1c2d1d2d3d4d5d6d7d8").unwrap();
    assert_eq!(params.room_id, 0xa1a2a3a4b1b2c1c2d1d2d3d4d5d6d7d8);
    assert_eq!(params.username, "guest");
}

#[test]
fn missing_username_defaults_to_guest() {
    let params = connect_request("roomId=550e8400-e29b-41d4-a716-446655440000").unwrap();
    assert_eq!(params.room_id, 0x550e8400e29b41d4a716446655440000);
    assert_eq!(params.username, "guest");
}

#[test]
fn percent_encoding_in_the_username_is_decoded() {
    let params = connect_request(
        "roomId=00000000-0000-0000-0000-0000000000ff&username=bob%20the%20builder",
    )
    .unwrap();
    assert_eq!(params.room_id, 0xff);
    assert_eq!(params.username, "bob the builder");
}

#[test]
fn repeated_keys_keep_the_last_value() {
    let params = connect_request(
        "username=first&roomId=00000000-0000-0000-0000-000000000002&username=second",
    )
    .unwrap();
    assert_eq!(params.room_id, 2);
    assert_eq!(params.username, "second");
}

#[test]
fn unparseable_room_id_rejects_the_connection() {
    let err = connect_request("roomId=not-a-uuid&username=bob");
    assert!(matches!(err, Err(WireError::InvalidRoomId)));
}

#[test]
fn missing_room_id_rejects_the_connection() {
    let err = connect_request("username=bob");
    assert!(matches!(err, Err(WireError::InvalidRoomId)));
}

#[test]
fn rejected_connection_leaves_the_session_registry_untouched() {
    let registry = SessionRegistry::new();
    let err = connect_request("roomId=not-a-uuid");
    assert!(err.is_err());
    // nothing was attached anywhere: the room in question has no entry
    assert!(registry.snapshot(0).is_empty());
    assert!(!registry.has_room_entry(0));
}
