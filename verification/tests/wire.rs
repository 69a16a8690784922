use sharify::room::{CredentialsInput, Log, LogType, Room, RoomError};
use sharify::room_manager::RoomManager;
use sharify::spotify::Timestamp;
use sharify::wire::{
    create_error_response, log_type_from_i32, log_type_to_i32, room_error_from_i32,
    room_error_to_i32,
};
use sharify::commands::CommandResponse;

fn creds() -> CredentialsInput {
    CredentialsInput {
        access_token: "access".to_owned(),
        refresh_token: "refresh".to_owned(),
        expires_in: 3600,
        created_at: Timestamp::new("1700000000".to_owned()),
    }
}

#[test]
fn room_round_trips_on_its_semantic_fields() {
    let mut mgr = RoomManager::new();
    let room = mgr
        .create_room("U1".to_owned(), "owner".to_owned(), "R".to_owned(), creds())
        .unwrap();
    mgr.join_room(room.id, "guest".to_owned(), "U2".to_owned()).unwrap();
    mgr.ban_user(room.id, &"U1".to_owned(), &"U2".to_owned(), "noise".to_owned())
        .unwrap();
    mgr.add_track_to_queue(room.id, "U1".to_owned(), "t1".to_owned(), "one".to_owned(), 1000)
        .unwrap();
    mgr.append_log(room.id, Log::new(LogType::Other, "hello".to_owned())).unwrap();
    let before = mgr.get_room(&room.id).unwrap();

    let wire = before.to_wire();
    let back = Room::from_proto_unsafe(wire);

    assert_eq!(back.id, before.id);
    assert_eq!(back.name, before.name);
    assert_eq!(back.password, before.password);
    assert_eq!(back.max_users, before.max_users);
    assert_eq!(back.users.len(), before.users.len());
    for (a, b) in back.users.iter().zip(before.users.iter()) {
        assert_eq!(a.id, b.id);
        assert_eq!(a.username, b.username);
        assert_eq!(a.role_id, b.role_id);
        assert_eq!(a.is_connected, b.is_connected);
    }
    assert_eq!(back.banned_users, before.banned_users);
    assert_eq!(
        back.role_manager.get_roles().len(),
        before.role_manager.get_roles().len()
    );
    for (a, b) in back
        .role_manager
        .get_roles()
        .iter()
        .zip(before.role_manager.get_roles().iter())
    {
        assert_eq!(a.id, b.id);
        assert_eq!(a.name, b.name);
        assert_eq!(a.permissions, b.permissions);
    }
    assert_eq!(back.tracks_queue.len(), before.tracks_queue.len());
    for (a, b) in back.tracks_queue.iter().zip(before.tracks_queue.iter()) {
        assert_eq!(a.track_id, b.track_id);
        assert_eq!(a.user_id, b.user_id);
        assert_eq!(a.track_name, b.track_name);
        assert_eq!(a.track_duration, b.track_duration);
    }
    assert_eq!(back.logs.len(), before.logs.len());
    for (a, b) in back.logs.iter().zip(before.logs.iter()) {
        assert_eq!(a.details, b.details);
        assert_eq!(log_type_to_i32(a.log_type), log_type_to_i32(b.log_type));
    }
}

#[test]
fn log_kind_codes_round_trip() {
    for v in 0..=6 {
        assert_eq!(log_type_to_i32(log_type_from_i32(v)), v);
    }
    assert_eq!(log_type_to_i32(LogType::Kick), 1);
    assert_eq!(log_type_to_i32(LogType::Ban), 2);
}

#[test]
fn room_error_codes_round_trip() {
    for v in 0..=9 {
        assert_eq!(room_error_to_i32(room_error_from_i32(v)), v);
    }
    assert_eq!(room_error_to_i32(RoomError::UserBanned), 7);
}

#[test]
fn error_envelope_carries_the_message() {
    match create_error_response("Wrong UUID format".to_owned()) {
        CommandResponse::GenericError(m) => assert_eq!(m, "Wrong UUID format"),
        _ => panic!("expected a generic error envelope"),
    }
}

#[test]
fn default_role_table_is_ordered_by_strictly_decreasing_weight() {
    let mut mgr = RoomManager::new();
    let room = mgr
        .create_room("U1".to_owned(), "u".to_owned(), "R".to_owned(), creds())
        .unwrap();
    let roles = room.role_manager.get_roles();
    let names: Vec<&str> = roles.iter().map(|r| r.name.as_str()).collect();
    assert_eq!(names, vec!["Owner", "Admin", "Moderator", "VIP", "Guest"]);
    for pair in roles.windows(2) {
        assert!(pair[0].weight() > pair[1].weight());
    }
}
