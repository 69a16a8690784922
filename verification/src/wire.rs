//! The wire shape of a room: plain structs mirroring the protocol
//! messages, the conversions to and from the room aggregate, and the
//! round trip they preserve on every semantic field. The byte-level
//! serializer lives with the runtime outside the library; it carries
//! these values verbatim.

use vstd::prelude::*;

use crate::commands::CommandResponse;
use crate::role::{Role, RoleManager, RolePermission};
use crate::room::{Log, LogType, Room, RoomError, RoomMetadata, RoomTrack, RoomUser};
use crate::spotify::{SpotifyTokens, Timestamp};

verus! {

/// A role on the wire.
#[derive(Debug)]
pub struct RoleWire {
    pub id: u128,
    pub name: String,
    pub permissions: Option<RolePermission>,
}

/// The role table on the wire.
#[derive(Debug)]
pub struct RoleManagerWire {
    pub roles: Vec<RoleWire>,
}

/// A log entry on the wire; the kind travels as its code.
#[derive(Debug)]
pub struct LogWire {
    pub log_type: i32,
    pub details: String,
}

/// A queued track on the wire.
#[derive(Debug)]
pub struct RoomTrackWire {
    pub user_id: String,
    pub track_id: String,
    pub track_name: String,
    pub track_duration: u32,
}

/// A participant on the wire.
#[derive(Debug)]
pub struct RoomUserWire {
    pub id: String,
    pub username: String,
    pub role_id: u128,
    pub is_connected: bool,
}

/// A room on the wire.
#[derive(Debug)]
pub struct RoomWire {
    pub id: u128,
    pub name: String,
    pub password: String,
    pub users: Vec<RoomUserWire>,
    pub banned_users: Vec<String>,
    pub role_manager: Option<RoleManagerWire>,
    pub tracks_queue: Vec<RoomTrackWire>,
    pub logs: Vec<LogWire>,
    pub max_users: u32,
}

/// The code a log kind travels as.
pub open spec fn log_type_code(t: LogType) -> i32 {
    match t {
        LogType::Other => 0,
        LogType::Kick => 1,
        LogType::Ban => 2,
        LogType::AddTrack => 3,
        LogType::JoinRoom => 4,
        LogType::LeaveRoom => 5,
        LogType::UsernameChange => 6,
    }
}

/// The code of a log kind names it.
pub proof fn lemma_log_type_code_injective(a: LogType, b: LogType)
    requires
        log_type_code(a) == log_type_code(b),
    ensures
        a == b,
{
}

/// The kind a log code names.
pub fn log_type_from_i32(v: i32) -> (t: LogType)
    requires
        0 <= v <= 6,
    ensures
        log_type_code(t) == v,
{
    match v {
        0 => LogType::Other,
        1 => LogType::Kick,
        2 => LogType::Ban,
        3 => LogType::AddTrack,
        4 => LogType::JoinRoom,
        5 => LogType::LeaveRoom,
        _ => LogType::UsernameChange,
    }
}

/// The code a log kind travels as.
pub fn log_type_to_i32(t: LogType) -> (v: i32)
    ensures
        v == log_type_code(t),
{
    match t {
        LogType::Other => 0,
        LogType::Kick => 1,
        LogType::Ban => 2,
        LogType::AddTrack => 3,
        LogType::JoinRoom => 4,
        LogType::LeaveRoom => 5,
        LogType::UsernameChange => 6,
    }
}

/// The code a registry error travels as.
pub open spec fn room_error_code(e: RoomError) -> i32 {
    match e {
        RoomError::RoomCreationFail => 0,
        RoomError::RoomNotFound => 1,
        RoomError::RoomUserNotFound => 2,
        RoomError::RoleNotFound => 3,
        RoomError::Unauthorized => 4,
        RoomError::TrackNotFound => 5,
        RoomError::RoomFull => 6,
        RoomError::UserBanned => 7,
        RoomError::UserIDExists => 8,
        RoomError::Unreachable => 9,
    }
}

/// The code a registry error travels as.
pub fn room_error_to_i32(e: RoomError) -> (v: i32)
    ensures
        v == room_error_code(e),
{
    match e {
        RoomError::RoomCreationFail => 0,
        RoomError::RoomNotFound => 1,
        RoomError::RoomUserNotFound => 2,
        RoomError::RoleNotFound => 3,
        RoomError::Unauthorized => 4,
        RoomError::TrackNotFound => 5,
        RoomError::RoomFull => 6,
        RoomError::UserBanned => 7,
        RoomError::UserIDExists => 8,
        RoomError::Unreachable => 9,
    }
}

/// The registry error a code names.
pub fn room_error_from_i32(v: i32) -> (e: RoomError)
    requires
        0 <= v <= 9,
    ensures
        room_error_code(e) == v,
{
    match v {
        0 => RoomError::RoomCreationFail,
        1 => RoomError::RoomNotFound,
        2 => RoomError::RoomUserNotFound,
        3 => RoomError::RoleNotFound,
        4 => RoomError::Unauthorized,
        5 => RoomError::TrackNotFound,
        6 => RoomError::RoomFull,
        7 => RoomError::UserBanned,
        8 => RoomError::UserIDExists,
        _ => RoomError::Unreachable,
    }
}

/// A wire participant carrying exactly this participant.
pub open spec fn user_matches(w: RoomUserWire, u: RoomUser) -> bool {
    w.id == u.id && w.username == u.username && w.role_id == u.role_id && w.is_connected
        == u.is_connected
}

/// A wire role carrying exactly this role.
pub open spec fn role_matches(w: RoleWire, r: Role) -> bool {
    w.id == r.id && w.name == r.name && w.permissions == Some(r.permissions)
}

/// A wire log entry carrying exactly this entry.
pub open spec fn log_matches(w: LogWire, l: Log) -> bool {
    w.log_type == log_type_code(l.log_type) && w.details == l.details
}

/// A wire track carrying exactly this track.
pub open spec fn track_matches(w: RoomTrackWire, t: RoomTrack) -> bool {
    w.user_id == t.user_id && w.track_id == t.track_id && w.track_name == t.track_name
        && w.track_duration == t.track_duration
}

/// A wire room carrying exactly this room's semantic fields: password,
/// id, users, bans, roles, queue, logs and capacity.
pub open spec fn wire_matches(w: RoomWire, r: Room) -> bool {
    &&& w.id == r.id
    &&& w.name == r.name
    &&& w.password == r.password
    &&& w.users@.len() == r.users@.len()
    &&& (forall|i: int|
        0 <= i < r.users@.len() ==> user_matches(#[trigger] w.users@[i], r.users@[i]))
    &&& w.banned_users@.len() == r.banned_users@.len()
    &&& (forall|i: int|
        0 <= i < r.banned_users@.len() ==> (#[trigger] w.banned_users@[i]) == r.banned_users@[i])
    &&& (w.role_manager matches Some(rm) && rm.roles@.len() == r.role_manager@.len() && (forall|
        i: int,
    | 0 <= i < r.role_manager@.len() ==> role_matches(#[trigger] rm.roles@[i], r.role_manager@[i])))
    &&& w.tracks_queue@.len() == r.tracks_queue@.len()
    &&& (forall|i: int|
        0 <= i < r.tracks_queue@.len() ==> track_matches(
            #[trigger] w.tracks_queue@[i],
            r.tracks_queue@[i],
        ))
    &&& w.logs@.len() == r.logs@.len()
    &&& (forall|i: int| 0 <= i < r.logs@.len() ==> log_matches(#[trigger] w.logs@[i], r.logs@[i]))
    &&& w.max_users == r.max_users as u32
}

/// Round trip of the room codec: a wire value encoding one room and
/// decoding into another leaves every semantic field equal — password,
/// id, users, bans, roles, queue, logs and capacity.
pub proof fn lemma_room_wire_round_trip(w: RoomWire, r1: Room, r2: Room)
    requires
        wire_matches(w, r1),
        wire_matches(w, r2),
        r1.max_users <= u32::MAX,
        r2.max_users <= u32::MAX,
    ensures
        r2.id == r1.id,
        r2.name == r1.name,
        r2.password == r1.password,
        r2.users@ == r1.users@,
        r2.banned_users@ == r1.banned_users@,
        r2.role_manager@ == r1.role_manager@,
        r2.tracks_queue@ == r1.tracks_queue@,
        r2.logs@ == r1.logs@,
        r2.max_users == r1.max_users,
{
    assert(r2.users@ =~= r1.users@) by {
        assert forall|i: int| 0 <= i < r1.users@.len() implies r2.users@[i] == r1.users@[i] by {
            assert(user_matches(w.users@[i], r1.users@[i]));
            assert(user_matches(w.users@[i], r2.users@[i]));
        }
    }
    assert(r2.banned_users@ =~= r1.banned_users@) by {
        assert forall|i: int|
            0 <= i < r1.banned_users@.len() implies r2.banned_users@[i]
            == r1.banned_users@[i] by {
            assert(w.banned_users@[i] == r1.banned_users@[i]);
            assert(w.banned_users@[i] == r2.banned_users@[i]);
        }
    }
    assert(r2.role_manager@ =~= r1.role_manager@) by {
        let rm = w.role_manager->0;
        assert forall|i: int|
            0 <= i < r1.role_manager@.len() implies r2.role_manager@[i]
            == r1.role_manager@[i] by {
            assert(role_matches(rm.roles@[i], r1.role_manager@[i]));
            assert(role_matches(rm.roles@[i], r2.role_manager@[i]));
        }
    }
    assert(r2.tracks_queue@ =~= r1.tracks_queue@) by {
        assert forall|i: int|
            0 <= i < r1.tracks_queue@.len() implies r2.tracks_queue@[i]
            == r1.tracks_queue@[i] by {
            assert(track_matches(w.tracks_queue@[i], r1.tracks_queue@[i]));
            assert(track_matches(w.tracks_queue@[i], r2.tracks_queue@[i]));
        }
    }
    assert(r2.logs@ =~= r1.logs@) by {
        assert forall|i: int| 0 <= i < r1.logs@.len() implies r2.logs@[i] == r1.logs@[i] by {
            assert(log_matches(w.logs@[i], r1.logs@[i]));
            assert(log_matches(w.logs@[i], r2.logs@[i]));
            lemma_log_type_code_injective(r1.logs@[i].log_type, r2.logs@[i].log_type);
        }
    }
    assert(r1.max_users as u32 == r2.max_users as u32);
}

impl Room {
    /// The wire value of this room's semantic fields.
    pub fn to_wire(&self) -> (w: RoomWire)
        requires
            self.max_users <= u32::MAX,
        ensures
            wire_matches(w, *self),
    {
        let mut users: Vec<RoomUserWire> = Vec::new();
        let mut i: usize = 0;
        while i < self.users.len()
            invariant
                i <= self.users@.len(),
                users@.len() == i,
                forall|j: int|
                    0 <= j < i ==> user_matches(#[trigger] users@[j], self.users@[j]),
            decreases self.users@.len() - i,
        {
            let u = &self.users[i];
            users.push(
                RoomUserWire {
                    id: u.id.clone(),
                    username: u.username.clone(),
                    role_id: u.role_id,
                    is_connected: u.is_connected,
                },
            );
            i = i + 1;
        }
        let mut banned: Vec<String> = Vec::new();
        let mut i2: usize = 0;
        while i2 < self.banned_users.len()
            invariant
                i2 <= self.banned_users@.len(),
                banned@.len() == i2,
                forall|j: int| 0 <= j < i2 ==> (#[trigger] banned@[j]) == self.banned_users@[j],
            decreases self.banned_users@.len() - i2,
        {
            banned.push(self.banned_users[i2].clone());
            i2 = i2 + 1;
        }
        let table = self.role_manager.get_roles();
        let mut roles: Vec<RoleWire> = Vec::new();
        let mut i3: usize = 0;
        while i3 < table.len()
            invariant
                i3 <= table@.len(),
                table@ == self.role_manager@,
                roles@.len() == i3,
                forall|j: int|
                    0 <= j < i3 ==> role_matches(#[trigger] roles@[j], self.role_manager@[j]),
            decreases table@.len() - i3,
        {
            let role = &table[i3];
            roles.push(
                RoleWire {
                    id: role.id,
                    name: role.name.clone(),
                    permissions: Some(role.permissions),
                },
            );
            i3 = i3 + 1;
        }
        let mut tracks: Vec<RoomTrackWire> = Vec::new();
        let mut i4: usize = 0;
        while i4 < self.tracks_queue.len()
            invariant
                i4 <= self.tracks_queue@.len(),
                tracks@.len() == i4,
                forall|j: int|
                    0 <= j < i4 ==> track_matches(#[trigger] tracks@[j], self.tracks_queue@[j]),
            decreases self.tracks_queue@.len() - i4,
        {
            let t = &self.tracks_queue[i4];
            tracks.push(
                RoomTrackWire {
                    user_id: t.user_id.clone(),
                    track_id: t.track_id.clone(),
                    track_name: t.track_name.clone(),
                    track_duration: t.track_duration,
                },
            );
            i4 = i4 + 1;
        }
        let mut logs: Vec<LogWire> = Vec::new();
        let mut i5: usize = 0;
        while i5 < self.logs.len()
            invariant
                i5 <= self.logs@.len(),
                logs@.len() == i5,
                forall|j: int| 0 <= j < i5 ==> log_matches(#[trigger] logs@[j], self.logs@[j]),
            decreases self.logs@.len() - i5,
        {
            let l = &self.logs[i5];
            logs.push(LogWire { log_type: log_type_to_i32(l.log_type), details: l.details.clone() });
            i5 = i5 + 1;
        }
        RoomWire {
            id: self.id,
            name: self.name.clone(),
            password: self.password.clone(),
            users,
            banned_users: banned,
            role_manager: Some(RoleManagerWire { roles }),
            tracks_queue: tracks,
            logs,
            max_users: self.max_users as u32,
        }
    }

    /// A room rebuilt from a wire value; fields the wire cannot carry —
    /// the owner's credentials, the inactivity mark — start empty, so the
    /// result serves display and tests, not the registry.
    pub fn from_proto_unsafe(room: RoomWire) -> (r: Room)
        requires
            room.role_manager matches Some(rm) ==> forall|i: int|
                0 <= i < rm.roles@.len() ==> (#[trigger] rm.roles@[i].permissions) is Some,
            forall|i: int| 0 <= i < room.logs@.len() ==> 0 <= (#[trigger] room.logs@[i]).log_type <= 6,
            room.max_users <= usize::MAX,
        ensures
            room.role_manager is Some ==> wire_matches(room, r),
            room.role_manager is None ==> crate::role::is_default_role_table(r.role_manager@),
            r.max_users == room.max_users as usize,
            r.metadata.inactive_since is None,
            !r.metadata.are_threads_initiated,
    {
        let RoomWire { id, name, password, users, banned_users, role_manager, tracks_queue, logs, max_users } =
            room;
        let mut out_users: Vec<RoomUser> = Vec::new();
        let mut i: usize = 0;
        while i < users.len()
            invariant
                i <= users@.len(),
                out_users@.len() == i,
                forall|j: int|
                    0 <= j < i ==> user_matches(#[trigger] users@[j], out_users@[j]),
            decreases users@.len() - i,
        {
            let u = &users[i];
            out_users.push(
                RoomUser {
                    id: u.id.clone(),
                    username: u.username.clone(),
                    role_id: u.role_id,
                    is_connected: u.is_connected,
                },
            );
            i = i + 1;
        }
        let out_roles: RoleManager = match role_manager {
            None => RoleManager::default(),
            Some(rm) => {
                let mut table: Vec<Role> = Vec::new();
                let mut i3: usize = 0;
                while i3 < rm.roles.len()
                    invariant
                        i3 <= rm.roles@.len(),
                        table@.len() == i3,
                        forall|j: int|
                            0 <= j < rm.roles@.len() ==> (#[trigger] rm.roles@[j].permissions)
                                is Some,
                        forall|j: int|
                            0 <= j < i3 ==> role_matches(#[trigger] rm.roles@[j], table@[j]),
                    decreases rm.roles@.len() - i3,
                {
                    let rw = &rm.roles[i3];
                    let permissions = match &rw.permissions {
                        Some(p) => *p,
                        None => {
                            proof {
                                assert(false);
                            }
                            RolePermission {
                                can_use_controls: false,
                                can_manage_users: false,
                                can_add_song: false,
                                can_add_moderator: false,
                                can_manage_room: false,
                            }
                        },
                    };
                    table.push(Role { id: rw.id, name: rw.name.clone(), permissions });
                    i3 = i3 + 1;
                }
                RoleManager::new_from(table)
            },
        };
        let mut out_tracks: std::collections::VecDeque<RoomTrack> =
            std::collections::VecDeque::new();
        let mut i4: usize = 0;
        while i4 < tracks_queue.len()
            invariant
                i4 <= tracks_queue@.len(),
                out_tracks@.len() == i4,
                forall|j: int|
                    0 <= j < i4 ==> track_matches(#[trigger] tracks_queue@[j], out_tracks@[j]),
            decreases tracks_queue@.len() - i4,
        {
            let t = &tracks_queue[i4];
            out_tracks.push_back(
                RoomTrack {
                    user_id: t.user_id.clone(),
                    track_id: t.track_id.clone(),
                    track_name: t.track_name.clone(),
                    track_duration: t.track_duration,
                },
            );
            i4 = i4 + 1;
        }
        let mut out_logs: std::collections::VecDeque<Log> = std::collections::VecDeque::new();
        let mut i5: usize = 0;
        while i5 < logs.len()
            invariant
                i5 <= logs@.len(),
                out_logs@.len() == i5,
                forall|j: int|
                    0 <= j < logs@.len() ==> 0 <= (#[trigger] logs@[j]).log_type <= 6,
                forall|j: int| 0 <= j < i5 ==> log_matches(#[trigger] logs@[j], out_logs@[j]),
            decreases logs@.len() - i5,
        {
            let l = &logs[i5];
            out_logs.push_back(
                Log { log_type: log_type_from_i32(l.log_type), details: l.details.clone() },
            );
            i5 = i5 + 1;
        }
        Room {
            id,
            name,
            password,
            users: out_users,
            banned_users,
            role_manager: out_roles,
            tracks_queue: out_tracks,
            max_users: max_users as usize,
            logs: out_logs,
            metadata: RoomMetadata::new(
                SpotifyTokens {
                    access_token: String::new(),
                    refresh_token: String::new(),
                    expires_in: 0,
                    created_at: Timestamp::new(String::new()),
                },
            ),
        }
    }
}

/// The error envelope the HTTP layer serializes when a request cannot be
/// decoded.
pub fn create_error_response(error: String) -> (r: CommandResponse)
    ensures
        r matches CommandResponse::GenericError(m) && m == error,
{
    CommandResponse::GenericError(error)
}

} // verus!
