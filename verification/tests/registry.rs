use sharify::room::{CredentialsInput, Log, LogType, RoomError};
use sharify::room_manager::{ReaperStep, RoleTableError, RoomManager};
use sharify::role::RolePermission;
use sharify::spotify::Timestamp;
use sharify::{INACTIVE_ROOM_SECS, MAX_LOGS_LEN, MAX_USERS};

fn creds() -> CredentialsInput {
    CredentialsInput {
        access_token: "access".to_owned(),
        refresh_token: "refresh".to_owned(),
        expires_in: 3600,
        created_at: Timestamp::new("1700000000".to_owned()),
    }
}

#[test]
fn create_room_seeds_owner_and_default_roles() {
    let mut mgr = RoomManager::new();
    let room = mgr
        .create_room("U1".to_owned(), "u".to_owned(), "R".to_owned(), creds())
        .unwrap();
    assert_eq!(room.users.len(), 1);
    assert_eq!(room.max_users, MAX_USERS);
    assert_eq!(room.role_manager.get_roles().len(), 5);
    let owner_role = room.role_manager.get_role_by_id(room.users[0].role_id).unwrap();
    assert!(owner_role.permissions.can_manage_room);
    assert_eq!(room.password.len(), 16);
    assert!(room.banned_users.is_empty());
    assert!(mgr.user_id_exists(&"U1".to_owned()));
}

#[test]
fn create_room_refuses_a_user_id_in_use() {
    let mut mgr = RoomManager::new();
    mgr.create_room("U1".to_owned(), "u".to_owned(), "R".to_owned(), creds())
        .unwrap();
    let res = mgr.create_room("U1".to_owned(), "v".to_owned(), "S".to_owned(), creds());
    assert!(matches!(res, Err(RoomError::UserIDExists)));
}

#[test]
fn join_room_rejects_bogus_room_id() {
    let mut mgr = RoomManager::new();
    let res = mgr.join_room(12345, "x".to_owned(), "U2".to_owned());
    assert!(matches!(res, Err(RoomError::RoomNotFound)));
}

#[test]
fn join_room_assigns_least_powerful_role() {
    let mut mgr = RoomManager::new();
    let room = mgr
        .create_room("U1".to_owned(), "u".to_owned(), "R".to_owned(), creds())
        .unwrap();
    let joined = mgr.join_room(room.id, "x".to_owned(), "U2".to_owned()).unwrap();
    assert_eq!(joined.users.len(), 2);
    let newcomer = &joined.users[1];
    assert_eq!(newcomer.id, "U2");
    assert!(!newcomer.is_connected);
    let role = joined.role_manager.get_role_by_id(newcomer.role_id).unwrap();
    assert_eq!(role.name, "Guest");
}

#[test]
fn banned_user_cannot_rejoin() {
    let mut mgr = RoomManager::new();
    let room = mgr
        .create_room("U1".to_owned(), "u".to_owned(), "R".to_owned(), creds())
        .unwrap();
    mgr.join_room(room.id, "x".to_owned(), "U2".to_owned()).unwrap();
    mgr.ban_user(room.id, &"U1".to_owned(), &"U2".to_owned(), "spam".to_owned())
        .unwrap();
    let after = mgr.get_room(&room.id).unwrap();
    assert!(after.banned_users.contains(&"U2".to_owned()));
    assert!(after.users.iter().all(|u| u.id != "U2"));
    let rejoin = mgr.join_room(room.id, "x".to_owned(), "U2".to_owned());
    assert!(matches!(rejoin, Err(RoomError::UserBanned)));
}

#[test]
fn ban_appends_a_log_entry_with_the_canonical_message() {
    let mut mgr = RoomManager::new();
    let room = mgr
        .create_room("U1".to_owned(), "owner".to_owned(), "R".to_owned(), creds())
        .unwrap();
    mgr.join_room(room.id, "peon".to_owned(), "U2".to_owned()).unwrap();
    mgr.ban_user(room.id, &"U1".to_owned(), &"U2".to_owned(), "noise".to_owned())
        .unwrap();
    let after = mgr.get_room(&room.id).unwrap();
    let last = after.logs.back().unwrap();
    assert!(matches!(last.log_type, LogType::Ban));
    assert_eq!(last.details, "User owner banned peon from the room for: noise");
}

#[test]
fn kick_removes_target_without_banning() {
    let mut mgr = RoomManager::new();
    let room = mgr
        .create_room("U1".to_owned(), "owner".to_owned(), "R".to_owned(), creds())
        .unwrap();
    mgr.join_room(room.id, "peon".to_owned(), "U2".to_owned()).unwrap();
    mgr.kick_user(room.id, &"U1".to_owned(), &"U2".to_owned(), "afk".to_owned())
        .unwrap();
    let after = mgr.get_room(&room.id).unwrap();
    assert!(after.users.iter().all(|u| u.id != "U2"));
    assert!(after.banned_users.is_empty());
    let last = after.logs.back().unwrap();
    assert!(matches!(last.log_type, LogType::Kick));
    assert_eq!(last.details, "User owner kicked peon from the room for: afk");
    assert!(!mgr.user_id_exists(&"U2".to_owned()));
}

#[test]
fn sole_owner_leaving_deletes_the_room() {
    let mut mgr = RoomManager::new();
    let room = mgr
        .create_room("U1".to_owned(), "u".to_owned(), "R".to_owned(), creds())
        .unwrap();
    assert!(mgr.is_user_an_owner_and_alone(room.id, &"U1".to_owned()).unwrap());
    mgr.leave_room(room.id, "U1".to_owned()).unwrap();
    assert!(mgr.get_room(&room.id).is_none());
    assert!(!mgr.user_id_exists(&"U1".to_owned()));
}

#[test]
fn guest_leaving_keeps_the_room() {
    let mut mgr = RoomManager::new();
    let room = mgr
        .create_room("U1".to_owned(), "u".to_owned(), "R".to_owned(), creds())
        .unwrap();
    mgr.join_room(room.id, "x".to_owned(), "U2".to_owned()).unwrap();
    assert!(!mgr.is_user_an_owner_and_alone(room.id, &"U2".to_owned()).unwrap());
    mgr.leave_room(room.id, "U2".to_owned()).unwrap();
    let after = mgr.get_room(&room.id).unwrap();
    assert_eq!(after.users.len(), 1);
}

#[test]
fn room_is_reaped_after_the_inactivity_window() {
    let mut mgr = RoomManager::new();
    let room = mgr
        .create_room("U1".to_owned(), "u".to_owned(), "R".to_owned(), creds())
        .unwrap();
    mgr.set_ws_user_state(room.id, &"U1".to_owned(), true).unwrap();
    mgr.set_ws_user_state(room.id, &"U1".to_owned(), false).unwrap();
    let t0: u64 = 1000;
    assert_eq!(mgr.room_activity_tick(room.id, t0), ReaperStep::MarkedInactive);
    assert_eq!(mgr.room_activity_tick(room.id, t0 + 5), ReaperStep::Waiting);
    assert_eq!(
        mgr.room_activity_tick(room.id, t0 + INACTIVE_ROOM_SECS),
        ReaperStep::Deleted
    );
    assert!(mgr.get_room(&room.id).is_none());
    assert_eq!(mgr.room_activity_tick(room.id, t0), ReaperStep::RoomGone);
}

#[test]
fn connected_participant_clears_the_inactivity_mark() {
    let mut mgr = RoomManager::new();
    let room = mgr
        .create_room("U1".to_owned(), "u".to_owned(), "R".to_owned(), creds())
        .unwrap();
    let t0: u64 = 1000;
    assert_eq!(mgr.room_activity_tick(room.id, t0), ReaperStep::MarkedInactive);
    mgr.set_ws_user_state(room.id, &"U1".to_owned(), true).unwrap();
    assert_eq!(mgr.room_activity_tick(room.id, t0 + 10), ReaperStep::Active);
    let after = mgr.get_room(&room.id).unwrap();
    assert!(after.metadata.inactive_since.is_none());
}

#[test]
fn log_ring_evicts_the_oldest_entry() {
    let mut mgr = RoomManager::new();
    let room = mgr
        .create_room("U1".to_owned(), "u".to_owned(), "R".to_owned(), creds())
        .unwrap();
    for i in 0..(MAX_LOGS_LEN + 1) {
        mgr.append_log(room.id, Log::new(LogType::Other, format!("entry {i}")))
            .unwrap();
    }
    let after = mgr.get_room(&room.id).unwrap();
    assert_eq!(after.logs.len(), MAX_LOGS_LEN);
    assert_eq!(after.logs.front().unwrap().details, "entry 1");
    assert_eq!(after.logs.back().unwrap().details, format!("entry {MAX_LOGS_LEN}"));
}

#[test]
fn track_queue_is_head_only_dequeued() {
    let mut mgr = RoomManager::new();
    let room = mgr
        .create_room("U1".to_owned(), "u".to_owned(), "R".to_owned(), creds())
        .unwrap();
    mgr.add_track_to_queue(room.id, "U1".to_owned(), "t1".to_owned(), "one".to_owned(), 1000)
        .unwrap();
    mgr.add_track_to_queue(room.id, "U1".to_owned(), "t2".to_owned(), "two".to_owned(), 2000)
        .unwrap();
    mgr.remove_track_from_queue(room.id, "t2".to_owned()).unwrap();
    assert_eq!(mgr.get_room(&room.id).unwrap().tracks_queue.len(), 2);
    mgr.remove_track_from_queue(room.id, "t1".to_owned()).unwrap();
    let after = mgr.get_room(&room.id).unwrap();
    assert_eq!(after.tracks_queue.len(), 1);
    assert_eq!(after.tracks_queue.front().unwrap().track_id, "t2");
}

#[test]
fn track_submitter_must_be_present() {
    let mut mgr = RoomManager::new();
    let room = mgr
        .create_room("U1".to_owned(), "u".to_owned(), "R".to_owned(), creds())
        .unwrap();
    let res = mgr.add_track_to_queue(
        room.id,
        "ghost".to_owned(),
        "t".to_owned(),
        "x".to_owned(),
        1,
    );
    assert!(matches!(res, Err(RoomError::RoomUserNotFound)));
}

#[test]
fn change_username_renames_the_participant() {
    let mut mgr = RoomManager::new();
    let room = mgr
        .create_room("U1".to_owned(), "u".to_owned(), "R".to_owned(), creds())
        .unwrap();
    mgr.change_username(room.id, "U1".to_owned(), "renamed".to_owned()).unwrap();
    let after = mgr.get_room(&room.id).unwrap();
    assert_eq!(after.users[0].username, "renamed");
}

#[test]
fn registry_role_ops_respect_names_and_references() {
    let mut mgr = RoomManager::new();
    let room = mgr
        .create_room("U1".to_owned(), "u".to_owned(), "R".to_owned(), creds())
        .unwrap();
    let perms = RolePermission {
        can_use_controls: true,
        can_manage_users: false,
        can_add_song: true,
        can_add_moderator: false,
        can_manage_room: false,
    };
    mgr.create_role(room.id, "DJ".to_owned(), perms).unwrap();
    let dup = mgr.create_role(room.id, "DJ".to_owned(), perms);
    assert!(matches!(
        dup,
        Err(RoleTableError::Role(sharify::role::RoleError::NameAlreadyExists))
    ));
    let after = mgr.get_room(&room.id).unwrap();
    assert_eq!(after.role_manager.get_roles().len(), 6);
    let dj_id = after.role_manager.get_role_by_name("DJ").unwrap().id;
    let owner_role_id = after.users[0].role_id;
    mgr.rename_role(room.id, dj_id, "Deejay".to_owned()).unwrap();
    let renamed = mgr.get_room(&room.id).unwrap();
    assert!(renamed.role_manager.get_role_by_name("DJ").is_none());
    assert!(renamed.role_manager.get_role_by_name("Deejay").is_some());
    // a role still held by a participant survives deletion
    mgr.delete_role(room.id, owner_role_id).unwrap();
    assert!(mgr
        .get_room(&room.id)
        .unwrap()
        .role_manager
        .get_role_by_id(owner_role_id)
        .is_some());
    // an unreferenced role goes away
    mgr.delete_role(room.id, dj_id).unwrap();
    assert!(mgr.get_room(&room.id).unwrap().role_manager.get_role_by_id(dj_id).is_none());
}

#[test]
fn room_full_refuses_the_sixteenth_participant() {
    let mut mgr = RoomManager::new();
    let room = mgr
        .create_room("U0".to_owned(), "u".to_owned(), "R".to_owned(), creds())
        .unwrap();
    for i in 1..MAX_USERS {
        mgr.join_room(room.id, format!("user{i}"), format!("U{i}")).unwrap();
    }
    let res = mgr.join_room(room.id, "late".to_owned(), "U99".to_owned());
    assert!(matches!(res, Err(RoomError::RoomFull)));
}

#[test]
fn kicking_an_absent_target_is_unreachable() {
    let mut mgr = RoomManager::new();
    let room = mgr
        .create_room("U1".to_owned(), "u".to_owned(), "R".to_owned(), creds())
        .unwrap();
    let res = mgr.kick_user(room.id, &"U1".to_owned(), &"ghost".to_owned(), "x".to_owned());
    assert!(matches!(res, Err(RoomError::Unreachable)));
}

#[test]
fn creation_under_a_free_tag_is_owed_and_a_held_tag_is_refused() {
    let mut mgr = RoomManager::new();
    let room = mgr
        .create_room_with_tag(42, "U1".to_owned(), "u".to_owned(), "R".to_owned(), creds())
        .unwrap();
    assert_eq!(room.id, 42);
    let collision =
        mgr.create_room_with_tag(42, "U2".to_owned(), "v".to_owned(), "S".to_owned(), creds());
    assert!(matches!(collision, Err(RoomError::RoomCreationFail)));
    assert!(room.password.chars().all(|c| c.is_ascii_alphanumeric()));
}

#[test]
fn rename_to_a_name_held_elsewhere_is_refused() {
    let mut mgr = RoomManager::new();
    let room = mgr
        .create_room("U1".to_owned(), "u".to_owned(), "R".to_owned(), creds())
        .unwrap();
    let guest_id = room.role_manager.get_role_by_name("Guest").unwrap().id;
    let res = mgr.rename_role(room.id, guest_id, "Owner".to_owned());
    assert!(matches!(
        res,
        Err(RoleTableError::Role(sharify::role::RoleError::NameAlreadyExists))
    ));
}
