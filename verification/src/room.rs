//! The room aggregate: participants, ban list, role table, bounded track
//! queue, ring-buffered log, and the owner's provider credentials, with
//! the well-formedness that every registry operation preserves.

use vstd::pervasive::VecAdditionalExecFns;
use vstd::prelude::*;

use crate::role::{has_role_id, is_first_id_index, names_unique, Role, RoleManager};
use crate::spotify::SpotifyTokens;
use crate::spotify::Timestamp;
use crate::{MAX_LOGS_LEN, MAX_TRACKS_QUEUE_LEN, MAX_USERS};

verus! {

/// Identity of a room: a time-ordered 128-bit tag.
pub type RoomID = u128;

/// Identity of a participant: an opaque printable string supplied by the
/// caller.
pub type RoomUserID = String;

/// What a log entry records.
#[derive(Clone, Copy, Debug, PartialEq, Eq, Structural)]
pub enum LogType {
    Other,
    Kick,
    Ban,
    AddTrack,
    JoinRoom,
    LeaveRoom,
    UsernameChange,
}

/// One entry of the room's bounded log.
#[derive(Debug)]
pub struct Log {
    pub log_type: LogType,
    pub details: String,
}

impl Clone for Log {
    fn clone(&self) -> (r: Self)
        ensures
            r == *self,
    {
        Log { log_type: self.log_type, details: self.details.clone() }
    }
}

impl Log {
    pub fn new(log_type: LogType, details: String) -> (r: Self)
        ensures
            r.log_type == log_type,
            r.details == details,
    {
        Log { log_type, details }
    }
}

/// Credentials supplied by the creator of a room.
#[derive(Debug)]
pub struct CredentialsInput {
    pub access_token: String,
    pub refresh_token: String,
    pub expires_in: u32,
    pub created_at: Timestamp,
}

impl Clone for CredentialsInput {
    fn clone(&self) -> (r: Self)
        ensures
            r == *self,
    {
        CredentialsInput {
            access_token: self.access_token.clone(),
            refresh_token: self.refresh_token.clone(),
            expires_in: self.expires_in,
            created_at: self.created_at.clone(),
        }
    }
}

impl CredentialsInput {
    /// The provider credentials these inputs seed.
    pub fn into_tokens(self) -> (r: SpotifyTokens)
        ensures
            r.access_token == self.access_token,
            r.refresh_token == self.refresh_token,
            r.expires_in == self.expires_in,
            r.created_at == self.created_at,
    {
        SpotifyTokens {
            access_token: self.access_token,
            refresh_token: self.refresh_token,
            expires_in: self.expires_in,
            created_at: self.created_at,
        }
    }
}

/// One queued track: who submitted it, the provider's track tag, a
/// display name and the duration in milliseconds.
#[derive(Debug)]
pub struct RoomTrack {
    pub user_id: RoomUserID,
    pub track_id: String,
    pub track_name: String,
    pub track_duration: u32,
}

impl Clone for RoomTrack {
    fn clone(&self) -> (r: Self)
        ensures
            r == *self,
    {
        RoomTrack {
            user_id: self.user_id.clone(),
            track_id: self.track_id.clone(),
            track_name: self.track_name.clone(),
            track_duration: self.track_duration,
        }
    }
}

/// One participant of a room.
#[derive(Debug)]
pub struct RoomUser {
    pub id: RoomUserID,
    pub username: String,
    pub role_id: u128,
    pub is_connected: bool,
}

impl Clone for RoomUser {
    fn clone(&self) -> (r: Self)
        ensures
            r == *self,
    {
        RoomUser {
            id: self.id.clone(),
            username: self.username.clone(),
            role_id: self.role_id,
            is_connected: self.is_connected,
        }
    }
}

/// Errors of the room registry.
#[derive(Clone, Copy, Debug, PartialEq, Eq, Structural)]
pub enum RoomError {
    RoomCreationFail,
    RoomNotFound,
    RoomUserNotFound,
    RoleNotFound,
    Unauthorized,
    TrackNotFound,
    RoomFull,
    UserBanned,
    UserIDExists,
    Unreachable,
}

/// The slice of a room that only its loops touch: the inactivity mark,
/// the owner's credentials, and the one-shot flag saying the room's
/// background loops were started. The channel that resets the poll
/// sleeper lives with the runtime outside the library, keyed by room id.
#[derive(Debug)]
pub struct RoomMetadata {
    /// Seconds timestamp of the moment the room was last seen with no
    /// connected participant; cleared while anyone is connected.
    pub inactive_since: Option<u64>,
    pub spotify_tokens: SpotifyTokens,
    pub are_threads_initiated: bool,
}

impl Clone for RoomMetadata {
    fn clone(&self) -> (r: Self)
        ensures
            r == *self,
    {
        RoomMetadata {
            inactive_since: self.inactive_since,
            spotify_tokens: self.spotify_tokens.clone(),
            are_threads_initiated: self.are_threads_initiated,
        }
    }
}

impl RoomMetadata {
    pub fn new(spotify_tokens: SpotifyTokens) -> (r: Self)
        ensures
            r.inactive_since is None,
            r.spotify_tokens == spotify_tokens,
            !r.are_threads_initiated,
    {
        RoomMetadata { inactive_since: None, spotify_tokens, are_threads_initiated: false }
    }
}

/// Some participant carries this user id.
pub open spec fn has_user_id(users: Seq<RoomUser>, uid: Seq<char>) -> bool {
    exists|i: int| 0 <= i < users.len() && #[trigger] users[i].id@ == uid
}

/// No two participants share a user id.
pub open spec fn users_unique(users: Seq<RoomUser>) -> bool {
    forall|i: int, j: int| 0 <= i < j < users.len() ==> users[i].id@ != users[j].id@
}

/// `k` is the position of the participant carrying this user id.
pub open spec fn is_user_index(users: Seq<RoomUser>, uid: Seq<char>, k: int) -> bool {
    0 <= k < users.len() && users[k].id@ == uid
}

/// This user id stands on the ban list.
pub open spec fn is_banned_id(banned: Seq<RoomUserID>, uid: Seq<char>) -> bool {
    exists|i: int| 0 <= i < banned.len() && #[trigger] banned[i]@ == uid
}

/// A room: identity, display name, invite password, participants, ban
/// list, role table, FIFO track queue, ring-buffered log, and metadata.
#[derive(Debug)]
pub struct Room {
    pub id: RoomID,
    pub name: String,
    pub password: String,
    pub users: Vec<RoomUser>,
    pub banned_users: Vec<RoomUserID>,
    /// Most powerful role first.
    pub role_manager: RoleManager,
    pub tracks_queue: std::collections::VecDeque<RoomTrack>,
    pub max_users: usize,
    /// The youngest `MAX_LOGS_LEN` log entries; the oldest is evicted.
    pub logs: std::collections::VecDeque<Log>,
    pub metadata: RoomMetadata,
}

impl Room {
    /// What every registry operation preserves of a room: participant ids
    /// unique and within capacity, bounded log and queue, every
    /// participant's role resolving in the role table, the ban list
    /// disjoint from the participants, and role names unique.
    pub open spec fn wf(self) -> bool {
        &&& users_unique(self.users@)
        &&& self.users@.len() <= self.max_users as int
        &&& self.max_users <= MAX_USERS
        &&& self.logs@.len() <= MAX_LOGS_LEN as int
        &&& self.tracks_queue@.len() <= MAX_TRACKS_QUEUE_LEN as int
        &&& (forall|i: int|
            0 <= i < self.users@.len() ==> has_role_id(
                self.role_manager@,
                #[trigger] self.users@[i].role_id,
            ))
        &&& (forall|i: int|
            0 <= i < self.banned_users@.len() ==> !has_user_id(
                self.users@,
                #[trigger] self.banned_users@[i]@,
            ))
        &&& names_unique(self.role_manager@)
    }

    /// Position of the participant carrying this user id, if any.
    pub fn user_index(&self, user_id: &RoomUserID) -> (r: Option<usize>)
        ensures
            match r {
                Some(k) => is_user_index(self.users@, user_id@, k as int),
                None => !has_user_id(self.users@, user_id@),
            },
    {
        let mut i: usize = 0;
        while i < self.users.len()
            invariant
                i <= self.users.len(),
                forall|j: int| 0 <= j < i ==> self.users@[j].id@ != user_id@,
            decreases self.users.len() - i,
        {
            if self.users[i].id == *user_id {
                return Some(i);
            }
            i = i + 1;
        }
        None
    }

    /// Whether this user id is a participant.
    pub fn has_user(&self, user_id: &RoomUserID) -> (b: bool)
        ensures
            b == has_user_id(self.users@, user_id@),
    {
        self.user_index(user_id).is_some()
    }

    /// Whether this user id stands on the ban list.
    pub fn is_banned(&self, user_id: &RoomUserID) -> (b: bool)
        ensures
            b == is_banned_id(self.banned_users@, user_id@),
    {
        let mut i: usize = 0;
        while i < self.banned_users.len()
            invariant
                i <= self.banned_users.len(),
                forall|j: int| 0 <= j < i ==> self.banned_users@[j]@ != user_id@,
            decreases self.banned_users.len() - i,
        {
            if self.banned_users[i] == *user_id {
                proof {
                    assert(self.banned_users@[i as int]@ == user_id@);
                }
                return true;
            }
            i = i + 1;
        }
        false
    }

    /// Whether any participant is connected; the reaper counts a room
    /// with none as inactive.
    pub fn any_connected(&self) -> (b: bool)
        ensures
            b == exists|i: int|
                0 <= i < self.users@.len() && #[trigger] self.users@[i].is_connected,
    {
        let mut i: usize = 0;
        while i < self.users.len()
            invariant
                i <= self.users.len(),
                forall|j: int| 0 <= j < i ==> !self.users@[j].is_connected,
            decreases self.users.len() - i,
        {
            if self.users[i].is_connected {
                return true;
            }
            i = i + 1;
        }
        false
    }
}

/// Two rooms agreeing on every semantic field.
pub open spec fn room_equiv(a: Room, b: Room) -> bool {
    &&& a.id == b.id
    &&& a.name@ == b.name@
    &&& a.password@ == b.password@
    &&& a.users@ == b.users@
    &&& a.banned_users@ == b.banned_users@
    &&& a.role_manager@ == b.role_manager@
    &&& a.tracks_queue@ == b.tracks_queue@
    &&& a.max_users == b.max_users
    &&& a.logs@ == b.logs@
    &&& a.metadata == b.metadata
}

/// Every field but the participants agrees.
pub open spec fn same_except_users(a: Room, b: Room) -> bool {
    &&& a.id == b.id
    &&& a.name@ == b.name@
    &&& a.password@ == b.password@
    &&& a.banned_users@ == b.banned_users@
    &&& a.role_manager@ == b.role_manager@
    &&& a.tracks_queue@ == b.tracks_queue@
    &&& a.max_users == b.max_users
    &&& a.logs@ == b.logs@
    &&& a.metadata == b.metadata
}

/// Every field but the ban list agrees.
pub open spec fn same_except_banned(a: Room, b: Room) -> bool {
    &&& a.id == b.id
    &&& a.name@ == b.name@
    &&& a.password@ == b.password@
    &&& a.users@ == b.users@
    &&& a.role_manager@ == b.role_manager@
    &&& a.tracks_queue@ == b.tracks_queue@
    &&& a.max_users == b.max_users
    &&& a.logs@ == b.logs@
    &&& a.metadata == b.metadata
}

/// Every field but the track queue agrees.
pub open spec fn same_except_tracks(a: Room, b: Room) -> bool {
    &&& a.id == b.id
    &&& a.name@ == b.name@
    &&& a.password@ == b.password@
    &&& a.users@ == b.users@
    &&& a.banned_users@ == b.banned_users@
    &&& a.role_manager@ == b.role_manager@
    &&& a.max_users == b.max_users
    &&& a.logs@ == b.logs@
    &&& a.metadata == b.metadata
}

/// Every field but the role table agrees.
pub open spec fn same_except_roles(a: Room, b: Room) -> bool {
    &&& a.id == b.id
    &&& a.name@ == b.name@
    &&& a.password@ == b.password@
    &&& a.users@ == b.users@
    &&& a.banned_users@ == b.banned_users@
    &&& a.tracks_queue@ == b.tracks_queue@
    &&& a.max_users == b.max_users
    &&& a.logs@ == b.logs@
    &&& a.metadata == b.metadata
}

/// Every field but the log ring agrees.
pub open spec fn same_except_logs(a: Room, b: Room) -> bool {
    &&& a.id == b.id
    &&& a.name@ == b.name@
    &&& a.password@ == b.password@
    &&& a.users@ == b.users@
    &&& a.banned_users@ == b.banned_users@
    &&& a.role_manager@ == b.role_manager@
    &&& a.tracks_queue@ == b.tracks_queue@
    &&& a.max_users == b.max_users
    &&& a.metadata == b.metadata
}

/// Every field but the metadata agrees.
pub open spec fn same_except_metadata(a: Room, b: Room) -> bool {
    &&& a.id == b.id
    &&& a.name@ == b.name@
    &&& a.password@ == b.password@
    &&& a.users@ == b.users@
    &&& a.banned_users@ == b.banned_users@
    &&& a.role_manager@ == b.role_manager@
    &&& a.tracks_queue@ == b.tracks_queue@
    &&& a.max_users == b.max_users
    &&& a.logs@ == b.logs@
}

/// What a bounded log does to its entries: the new entry is appended and,
/// at capacity, the oldest is evicted first.
pub open spec fn logs_after_push(logs: Seq<Log>, entry: Log) -> Seq<Log> {
    if logs.len() >= MAX_LOGS_LEN as int {
        logs.drop_first().push(entry)
    } else {
        logs.push(entry)
    }
}

/// The role the room's table assigns to this participant: the first
/// table entry carrying the participant's role id.
pub open spec fn user_role_is(room: Room, uid: Seq<char>, role: Role) -> bool {
    exists|a: int, k: int|
        #![trigger is_user_index(room.users@, uid, a), room.role_manager@[k]]
        is_user_index(room.users@, uid, a) && is_first_id_index(
            room.role_manager@,
            room.users@[a].role_id,
            k,
        ) && room.role_manager@[k] == role
}

impl Room {
    /// The role of this participant, if the participant is present and
    /// its role id resolves in the table.
    pub fn role_of_user(&self, user_id: &RoomUserID) -> (r: Option<&Role>)
        ensures
            match r {
                Some(role) => user_role_is(*self, user_id@, *role),
                None => !has_user_id(self.users@, user_id@) || exists|a: int|
                    is_user_index(self.users@, user_id@, a) && !has_role_id(
                        self.role_manager@,
                        #[trigger] self.users@[a].role_id,
                    ),
            },
    {
        let a = match self.user_index(user_id) {
            None => {
                return None;
            },
            Some(a) => a,
        };
        match self.role_manager.get_role_by_id(self.users[a].role_id) {
            None => {
                proof {
                    assert(is_user_index(self.users@, user_id@, a as int));
                }
                None
            },
            Some(role) => {
                proof {
                    let ghost rid = self.users@[a as int].role_id;
                    let k = choose|k: int|
                        0 <= k < self.role_manager@.len() && *role == self.role_manager@[k]
                            && #[trigger] self.role_manager@[k].id == rid && (forall|j: int|
                            0 <= j < k ==> self.role_manager@[j].id != rid);
                    assert(is_first_id_index(self.role_manager@, rid, k));
                    assert(is_user_index(self.users@, user_id@, a as int));
                }
                Some(role)
            },
        }
    }

    /// Counts the participants whose role is `role_id` or whose own role
    /// grants `can_manage_room`.
    pub fn count_room_managers(&self, role_id: u128) -> (c: usize)
        ensures
            c as int == manager_count(self.users@, self.role_manager@, role_id),
    {
        let mut c: usize = 0;
        let mut i: usize = 0;
        while i < self.users.len()
            invariant
                i <= self.users.len(),
                c <= i,
                c as int == manager_count(self.users@.take(i as int), self.role_manager@, role_id),
            decreases self.users.len() - i,
        {
            proof {
                assert(self.users@.take(i + 1 as int).drop_last() =~= self.users@.take(i as int));
                assert(self.users@.take(i + 1 as int).last() == self.users@[i as int]);
            }
            let counts: bool = if self.users[i].role_id == role_id {
                true
            } else {
                match self.role_manager.get_role_by_id(self.users[i].role_id) {
                    None => {
                        proof {
                            let ghost rid = self.users@[i as int].role_id;
                            if exists|k: int|
                                #[trigger] is_first_id_index(self.role_manager@, rid, k)
                                    && self.role_manager@[k].permissions.can_manage_room {
                                let k = choose|k: int|
                                    #[trigger] is_first_id_index(self.role_manager@, rid, k)
                                        && self.role_manager@[k].permissions.can_manage_room;
                                assert(self.role_manager@[k].id == rid);
                                assert(has_role_id(self.role_manager@, rid));
                            }
                        }
                        false
                    },
                    Some(role) => {
                        proof {
                            let ghost rid = self.users@[i as int].role_id;
                            let k0 = choose|k0: int|
                                0 <= k0 < self.role_manager@.len() && *role
                                    == self.role_manager@[k0]
                                    && #[trigger] self.role_manager@[k0].id == rid && (forall|
                                    j: int,
                                |
                                    0 <= j < k0 ==> self.role_manager@[j].id != rid);
                            assert(is_first_id_index(self.role_manager@, rid, k0));
                            if !role.permissions.can_manage_room {
                                if exists|k: int|
                                    #[trigger] is_first_id_index(self.role_manager@, rid, k)
                                        && self.role_manager@[k].permissions.can_manage_room {
                                    let k = choose|k: int|
                                        #[trigger] is_first_id_index(self.role_manager@, rid, k)
                                            && self.role_manager@[k].permissions.can_manage_room;
                                    crate::role::lemma_first_id_index_unique(
                                        self.role_manager@,
                                        rid,
                                        k,
                                        k0,
                                    );
                                }
                            }
                        }
                        role.permissions.can_manage_room
                    },
                }
            };
            proof {
                assert(counts == manages_room_or_same(
                    self.users@[i as int],
                    self.role_manager@,
                    role_id,
                ));
            }
            if counts {
                c = c + 1;
            }
            i = i + 1;
        }
        proof {
            assert(self.users@.take(self.users@.len() as int) =~= self.users@);
        }
        c
    }

    /// Flips one participant's connected flag.
    pub fn set_user_connected(&mut self, a: usize, is_connected: bool)
        requires
            a < old(self).users@.len(),
        ensures
            same_except_users(*final(self), *old(self)),
            final(self).users@ == old(self).users@.update(
                a as int,
                RoomUser {
                    is_connected,
                    id: old(self).users@[a as int].id,
                    username: old(self).users@[a as int].username,
                    role_id: old(self).users@[a as int].role_id,
                },
            ),
    {
        let u = self.users[a].clone();
        self.users.set(
            a,
            RoomUser { id: u.id, username: u.username, role_id: u.role_id, is_connected },
        );
    }

    /// Renames one participant.
    pub fn set_username(&mut self, a: usize, username: String)
        requires
            a < old(self).users@.len(),
        ensures
            same_except_users(*final(self), *old(self)),
            final(self).users@ == old(self).users@.update(
                a as int,
                RoomUser {
                    username,
                    id: old(self).users@[a as int].id,
                    role_id: old(self).users@[a as int].role_id,
                    is_connected: old(self).users@[a as int].is_connected,
                },
            ),
    {
        let u = self.users[a].clone();
        self.users.set(
            a,
            RoomUser { id: u.id, username, role_id: u.role_id, is_connected: u.is_connected },
        );
    }

    /// Appends a participant.
    pub fn push_user(&mut self, u: RoomUser)
        ensures
            same_except_users(*final(self), *old(self)),
            final(self).users@ == old(self).users@.push(u),
    {
        self.users.push(u);
    }

    /// Removes the participant at this position.
    pub fn remove_user(&mut self, a: usize)
        requires
            a < old(self).users@.len(),
        ensures
            same_except_users(*final(self), *old(self)),
            final(self).users@ == old(self).users@.remove(a as int),
    {
        let _ = self.users.remove(a);
    }

    /// Appends a user id to the ban list.
    pub fn push_banned(&mut self, user_id: RoomUserID)
        ensures
            same_except_banned(*final(self), *old(self)),
            final(self).banned_users@ == old(self).banned_users@.push(user_id),
    {
        self.banned_users.push(user_id);
    }

    /// Appends a track to the queue.
    pub fn push_track(&mut self, t: RoomTrack)
        ensures
            same_except_tracks(*final(self), *old(self)),
            final(self).tracks_queue@ == old(self).tracks_queue@.push(t),
    {
        self.tracks_queue.push_back(t);
    }

    /// Drops the queue's front entry.
    pub fn pop_front_track(&mut self)
        requires
            old(self).tracks_queue@.len() > 0,
        ensures
            same_except_tracks(*final(self), *old(self)),
            final(self).tracks_queue@ == old(self).tracks_queue@.drop_first(),
    {
        let _ = self.tracks_queue.pop_front();
        proof {
            assert(self.tracks_queue@ =~= old(self).tracks_queue@.drop_first());
        }
    }

    /// Appends a log entry, evicting the oldest at capacity; the log
    /// never grows beyond `MAX_LOGS_LEN`.
    pub fn push_log(&mut self, entry: Log)
        ensures
            same_except_logs(*final(self), *old(self)),
            final(self).logs@ == logs_after_push(old(self).logs@, entry),
            old(self).logs@.len() <= MAX_LOGS_LEN as int ==> final(self).logs@.len()
                <= MAX_LOGS_LEN as int,
    {
        if self.logs.len() >= MAX_LOGS_LEN {
            let _ = self.logs.pop_front();
            proof {
                assert(self.logs@ =~= old(self).logs@.drop_first());
            }
        }
        self.logs.push_back(entry);
    }

    /// Marks or clears the moment the room was last seen empty.
    pub fn set_inactive_since(&mut self, t: Option<u64>)
        ensures
            same_except_metadata(*final(self), *old(self)),
            final(self).metadata.inactive_since == t,
            final(self).metadata.spotify_tokens == old(self).metadata.spotify_tokens,
            final(self).metadata.are_threads_initiated == old(
                self,
            ).metadata.are_threads_initiated,
    {
        self.metadata.inactive_since = t;
    }

    /// Marks the room's background loops as started; one-shot.
    pub fn mark_threads_initiated(&mut self)
        ensures
            same_except_metadata(*final(self), *old(self)),
            final(self).metadata.are_threads_initiated,
            final(self).metadata.inactive_since == old(self).metadata.inactive_since,
            final(self).metadata.spotify_tokens == old(self).metadata.spotify_tokens,
    {
        self.metadata.are_threads_initiated = true;
    }

    /// Replaces the owner's provider credentials, after a refresh.
    pub fn set_tokens(&mut self, tokens: SpotifyTokens)
        ensures
            same_except_metadata(*final(self), *old(self)),
            final(self).metadata.spotify_tokens == tokens,
            final(self).metadata.inactive_since == old(self).metadata.inactive_since,
            final(self).metadata.are_threads_initiated == old(
                self,
            ).metadata.are_threads_initiated,
    {
        self.metadata.spotify_tokens = tokens;
    }
}

/// Every participant's role id resolves in its room's role table.
pub proof fn lemma_participant_role_resolves(room: Room, a: int)
    requires
        room.wf(),
        0 <= a < room.users@.len(),
    ensures
        has_role_id(room.role_manager@, room.users@[a].role_id),
{
}

/// The bounded-state invariant of a well-formed room: the log ring, the
/// track queue and the participant list never exceed their capacities.
pub proof fn lemma_room_bounds(room: Room)
    requires
        room.wf(),
    ensures
        room.logs@.len() <= MAX_LOGS_LEN as int,
        room.tracks_queue@.len() <= MAX_TRACKS_QUEUE_LEN as int,
        room.users@.len() <= MAX_USERS as int,
{
}

/// Two positions carrying the same user id coincide when ids are unique.
pub proof fn lemma_user_index_unique(users: Seq<RoomUser>, uid: Seq<char>, a1: int, a2: int)
    requires
        users_unique(users),
        is_user_index(users, uid, a1),
        is_user_index(users, uid, a2),
    ensures
        a1 == a2,
{
}

/// A participant with unique ids holds at most one role value.
pub proof fn lemma_user_role_unique(room: Room, uid: Seq<char>, r1: Role, r2: Role)
    requires
        users_unique(room.users@),
        user_role_is(room, uid, r1),
        user_role_is(room, uid, r2),
    ensures
        r1 == r2,
{
    let (a1, k1) = choose|a1: int, k1: int|
        #![trigger room.users@[a1], room.role_manager@[k1]]
        is_user_index(room.users@, uid, a1) && is_first_id_index(
            room.role_manager@,
            room.users@[a1].role_id,
            k1,
        ) && room.role_manager@[k1] == r1;
    let (a2, k2) = choose|a2: int, k2: int|
        #![trigger room.users@[a2], room.role_manager@[k2]]
        is_user_index(room.users@, uid, a2) && is_first_id_index(
            room.role_manager@,
            room.users@[a2].role_id,
            k2,
        ) && room.role_manager@[k2] == r2;
    lemma_user_index_unique(room.users@, uid, a1, a2);
    crate::role::lemma_first_id_index_unique(room.role_manager@, room.users@[a1].role_id, k1, k2);
}

/// When the participant is absent, or its role id resolves nowhere, no
/// role value is the participant's role.
pub proof fn lemma_no_user_role(room: Room, uid: Seq<char>)
    requires
        users_unique(room.users@),
        !has_user_id(room.users@, uid) || exists|a: int|
            is_user_index(room.users@, uid, a) && !has_role_id(
                room.role_manager@,
                #[trigger] room.users@[a].role_id,
            ),
    ensures
        forall|r: Role| !(#[trigger] user_role_is(room, uid, r)),
{
    assert forall|r: Role| !(#[trigger] user_role_is(room, uid, r)) by {
        if user_role_is(room, uid, r) {
            let (a1, k1) = choose|a1: int, k1: int|
                #![trigger room.users@[a1], room.role_manager@[k1]]
                is_user_index(room.users@, uid, a1) && is_first_id_index(
                    room.role_manager@,
                    room.users@[a1].role_id,
                    k1,
                ) && room.role_manager@[k1] == r;
            assert(has_user_id(room.users@, uid)) by {
                assert(room.users@[a1].id@ == uid);
            }
            let a = choose|a: int|
                is_user_index(room.users@, uid, a) && !has_role_id(
                    room.role_manager@,
                    #[trigger] room.users@[a].role_id,
                );
            lemma_user_index_unique(room.users@, uid, a1, a);
            assert(room.role_manager@[k1].id == room.users@[a].role_id);
        }
    }
}

/// A participant counts toward the manager census for `role_id` when it
/// holds that role id outright or when its own role grants
/// `can_manage_room`.
pub open spec fn manages_room_or_same(u: RoomUser, roles: Seq<Role>, role_id: u128) -> bool {
    u.role_id == role_id || (exists|k: int|
        #[trigger] is_first_id_index(roles, u.role_id, k) && roles[k].permissions.can_manage_room)
}

/// How many participants count toward the manager census for `role_id`.
pub open spec fn manager_count(users: Seq<RoomUser>, roles: Seq<Role>, role_id: u128) -> int
    decreases users.len(),
{
    if users.len() == 0 {
        0
    } else {
        manager_count(users.drop_last(), roles, role_id) + (if manages_room_or_same(
            users.last(),
            roles,
            role_id,
        ) {
            1int
        } else {
            0int
        })
    }
}

/// Replacing participants one for one — same ids, same role ids — keeps a
/// room well-formed.
pub proof fn lemma_wf_users_pointwise(a: Room, b: Room)
    requires
        b.wf(),
        same_except_users(a, b),
        a.users@.len() == b.users@.len(),
        forall|i: int|
            0 <= i < a.users@.len() ==> (#[trigger] a.users@[i]).id@ == b.users@[i].id@
                && a.users@[i].role_id == b.users@[i].role_id,
    ensures
        a.wf(),
        forall|x: int|
            0 <= x < a.users@.len() ==> has_user_id(b.users@, (#[trigger] a.users@[x]).id@),
{
    assert forall|i: int, j: int| 0 <= i < j < a.users@.len() implies a.users@[i].id@
        != a.users@[j].id@ by {
        assert(b.users@[i].id@ != b.users@[j].id@);
    }
    assert forall|i: int|
        0 <= i < a.banned_users@.len() implies !has_user_id(
        a.users@,
        (#[trigger] a.banned_users@[i])@,
    ) by {
        if has_user_id(a.users@, a.banned_users@[i]@) {
            let x = choose|x: int|
                0 <= x < a.users@.len() && (#[trigger] a.users@[x].id@) == a.banned_users@[i]@;
            assert(b.users@[x].id@ == a.banned_users@[i]@);
            assert(has_user_id(b.users@, a.banned_users@[i]@));
        }
    }
}

/// Removing one participant from a duplicate-free list keeps it
/// duplicate-free, keeps every remaining participant, and — ids being
/// unique — removes that participant's id entirely.
pub proof fn lemma_users_remove(users: Seq<RoomUser>, t: int)
    requires
        users_unique(users),
        0 <= t < users.len(),
    ensures
        users_unique(users.remove(t)),
        forall|x: int|
            0 <= x < users.remove(t).len() ==> exists|x0: int|
                0 <= x0 < users.len() && users[x0] == #[trigger] users.remove(t)[x],
        forall|uid: Seq<char>|
            #[trigger] has_user_id(users.remove(t), uid) ==> has_user_id(users, uid),
        !has_user_id(users.remove(t), users[t].id@),
{
    users.remove_ensures(t);
    let rem = users.remove(t);
    assert forall|i: int, j: int| 0 <= i < j < rem.len() implies rem[i].id@ != rem[j].id@ by {
        let i0 = if i < t {
            i
        } else {
            i + 1
        };
        let j0 = if j < t {
            j
        } else {
            j + 1
        };
        assert(rem[i] == users[i0]);
        assert(rem[j] == users[j0]);
    }
    assert forall|x: int| 0 <= x < rem.len() implies exists|x0: int|
        0 <= x0 < users.len() && users[x0] == #[trigger] rem[x] by {
        let x0 = if x < t {
            x
        } else {
            x + 1
        };
        assert(rem[x] == users[x0]);
    }
    assert forall|uid: Seq<char>| #[trigger] has_user_id(rem, uid) implies has_user_id(
        users,
        uid,
    ) by {
        let x = choose|x: int| 0 <= x < rem.len() && (#[trigger] rem[x].id@) == uid;
        let x0 = if x < t {
            x
        } else {
            x + 1
        };
        assert(rem[x] == users[x0]);
        assert(users[x0].id@ == uid);
    }
    if has_user_id(rem, users[t].id@) {
        let x = choose|x: int| 0 <= x < rem.len() && (#[trigger] rem[x].id@) == users[t].id@;
        let x0 = if x < t {
            x
        } else {
            x + 1
        };
        assert(rem[x] == users[x0]);
        if x0 < t {
            assert(users[x0].id@ != users[t].id@);
        } else {
            assert(users[t].id@ != users[x0].id@);
        }
    }
}

impl Clone for Room {
    fn clone(&self) -> (r: Self)
        ensures
            room_equiv(r, *self),
            r.wf() == self.wf(),
    {
        let users = self.users.clone();
        let banned_users = self.banned_users.clone();
        let tracks_queue = self.tracks_queue.clone();
        let logs = self.logs.clone();
        proof {
            assert(users@ =~= self.users@) by {
                assert forall|i: int| 0 <= i < self.users@.len() implies users@[i]
                    == self.users@[i] by {
                    assert(vstd::pervasive::cloned(self.users@[i], users@[i]));
                }
            }
            assert(banned_users@ =~= self.banned_users@) by {
                assert forall|i: int| 0 <= i < self.banned_users@.len() implies banned_users@[i]
                    == self.banned_users@[i] by {
                    assert(vstd::pervasive::cloned(self.banned_users@[i], banned_users@[i]));
                }
            }
            assert(tracks_queue@ =~= self.tracks_queue@) by {
                assert forall|i: int| 0 <= i < self.tracks_queue@.len() implies tracks_queue@[i]
                    == self.tracks_queue@[i] by {
                    assert(vstd::pervasive::cloned(self.tracks_queue@[i], tracks_queue@[i]));
                }
            }
            assert(logs@ =~= self.logs@) by {
                assert forall|i: int| 0 <= i < self.logs@.len() implies logs@[i]
                    == self.logs@[i] by {
                    assert(vstd::pervasive::cloned(self.logs@[i], logs@[i]));
                }
            }
        }
        Room {
            id: self.id,
            name: self.name.clone(),
            password: self.password.clone(),
            users,
            banned_users,
            role_manager: self.role_manager.clone(),
            tracks_queue,
            max_users: self.max_users,
            logs,
            metadata: self.metadata.clone(),
        }
    }
}

} // verus!
