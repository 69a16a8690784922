//! The process-wide room registry: every room lives here, every mutation
//! enters here, and the registry's well-formedness pins the global
//! invariants — room tags unique, a user id in at most one room, every
//! room within its bounds.

use vstd::prelude::*;

use crate::random::{new_tag, random_alphanumeric_string};
use crate::role::{
    guest_permissions, has_role_id, is_default_role_table, is_first_id_index,
    lemma_first_id_index_unique, names_unique, owner_permissions, Role, RoleError, RoleManager,
    RolePermission,
};
use crate::room::{
    has_user_id, is_banned_id, is_user_index, lemma_user_index_unique, lemma_users_remove,
    logs_after_push, manager_count, room_equiv, same_except_logs, same_except_metadata,
    same_except_roles, same_except_tracks, same_except_users, users_unique, CredentialsInput, Log, LogType, Room,
    RoomError, RoomID, RoomMetadata, RoomTrack, RoomUser, RoomUserID,
};
use crate::{INACTIVE_ROOM_SECS, MAX_LOGS_LEN, MAX_TRACKS_QUEUE_LEN, MAX_USERS};
use vstd::string::StringExecFns;

verus! {

/// The log line recorded when an actor kicks a participant.
pub open spec fn kick_log_message(author: Seq<char>, target: Seq<char>, reason: Seq<char>) -> Seq<
    char,
> {
    "User "@ + author + " kicked "@ + target + " from the room for: "@ + reason
}

/// The log line recorded when an actor bans a participant.
pub open spec fn ban_log_message(author: Seq<char>, target: Seq<char>, reason: Seq<char>) -> Seq<
    char,
> {
    "User "@ + author + " banned "@ + target + " from the room for: "@ + reason
}

/// What a successful creation did: one fresh, well-formed room entered
/// the registry, holding exactly the caller under the top seeded role,
/// a 16-character alphanumeric password, empty queue, ban list and log,
/// and the supplied credentials.
pub open spec fn room_created(
    pre: Seq<Room>,
    post: Seq<Room>,
    room: Room,
    user_id: Seq<char>,
    username: Seq<char>,
    name: Seq<char>,
    creds: CredentialsInput,
) -> bool {
    &&& post.len() == pre.len() + 1
    &&& post.subrange(0, pre.len() as int) == pre
    &&& room_equiv(room, post.last())
    &&& !has_room_id(pre, room.id)
    &&& room.wf()
    &&& room.users@.len() == 1
    &&& room.users@[0].id@ == user_id
    &&& room.users@[0].username@ == username
    &&& room.users@[0].is_connected == false
    &&& room.users@[0].role_id == room.role_manager@[0].id
    &&& is_default_role_table(room.role_manager@)
    &&& room.name@ == name
    &&& room.password@.len() == 16
    &&& (forall|i: int|
        0 <= i < room.password@.len() ==> crate::random::is_alphanumeric_char(
            #[trigger] room.password@[i],
        ))
    &&& room.max_users == MAX_USERS
    &&& room.banned_users@.len() == 0
    &&& room.tracks_queue@.len() == 0
    &&& room.logs@.len() == 0
    &&& room.metadata.spotify_tokens.access_token@ == creds.access_token@
    &&& room.metadata.spotify_tokens.refresh_token@ == creds.refresh_token@
    &&& room.metadata.spotify_tokens.expires_in == creds.expires_in
    &&& room.metadata.spotify_tokens.created_at@ == creds.created_at@
    &&& room.metadata.inactive_since is None
    &&& !room.metadata.are_threads_initiated
}

/// What the fail-free head dequeue did: the queue's front entry left
/// exactly when it carried the track id; nothing else moved.
pub open spec fn track_head_dequeued(
    pre: Seq<Room>,
    post: Seq<Room>,
    room_id: u128,
    track_id: Seq<char>,
) -> bool {
    exists|k: int|
        #[trigger] is_room_index(pre, room_id, k) && post.len() == pre.len() && (forall|j: int|
            0 <= j < pre.len() && j != k ==> post[j] == pre[j]) && if pre[k].tracks_queue@.len()
            > 0 && pre[k].tracks_queue@[0].track_id@ == track_id {
            same_except_tracks(post[k], pre[k]) && post[k].tracks_queue@
                == pre[k].tracks_queue@.drop_first()
        } else {
            post[k] == pre[k]
        }
}

/// What a successful kick did: the target left the participants, a Kick
/// log entry with the canonical message was appended, and nothing else of
/// the room — or of any other room — moved.
pub open spec fn kick_applied(
    pre: Seq<Room>,
    post: Seq<Room>,
    room_id: u128,
    author: Seq<char>,
    target: Seq<char>,
    reason: Seq<char>,
) -> bool {
    exists|k: int, a: int, t: int|
        #![trigger is_room_index(pre, room_id, k), pre[k].users@[a], pre[k].users@[t]]
        is_room_index(pre, room_id, k) && is_user_index(pre[k].users@, author, a) && is_user_index(
            pre[k].users@,
            target,
            t,
        ) && post.len() == pre.len() && (forall|j: int|
            0 <= j < pre.len() && j != k ==> post[j] == pre[j]) && {
            let oldr = pre[k];
            let newr = post[k];
            &&& newr.users@ == oldr.users@.remove(t)
            &&& !has_user_id(newr.users@, target)
            &&& newr.logs@ == logs_after_push(oldr.logs@, newr.logs@.last())
            &&& newr.logs@.last().log_type == LogType::Kick
            &&& newr.logs@.last().details@ == kick_log_message(
                oldr.users@[a].username@,
                oldr.users@[t].username@,
                reason,
            )
            &&& newr.banned_users@ == oldr.banned_users@
            &&& newr.id == oldr.id
            &&& newr.name@ == oldr.name@
            &&& newr.password@ == oldr.password@
            &&& newr.role_manager@ == oldr.role_manager@
            &&& newr.tracks_queue@ == oldr.tracks_queue@
            &&& newr.max_users == oldr.max_users
            &&& newr.metadata == oldr.metadata
        }
}

/// What a successful ban did: a kick, plus the target's id on the ban
/// list and a Ban log entry.
pub open spec fn ban_applied(
    pre: Seq<Room>,
    post: Seq<Room>,
    room_id: u128,
    author: Seq<char>,
    target: Seq<char>,
    reason: Seq<char>,
) -> bool {
    exists|k: int, a: int, t: int|
        #![trigger is_room_index(pre, room_id, k), pre[k].users@[a], pre[k].users@[t]]
        is_room_index(pre, room_id, k) && is_user_index(pre[k].users@, author, a) && is_user_index(
            pre[k].users@,
            target,
            t,
        ) && post.len() == pre.len() && (forall|j: int|
            0 <= j < pre.len() && j != k ==> post[j] == pre[j]) && {
            let oldr = pre[k];
            let newr = post[k];
            &&& newr.users@ == oldr.users@.remove(t)
            &&& !has_user_id(newr.users@, target)
            &&& newr.banned_users@ == oldr.banned_users@.push(newr.banned_users@.last())
            &&& newr.banned_users@.last()@ == target
            &&& is_banned_id(newr.banned_users@, target)
            &&& newr.logs@ == logs_after_push(oldr.logs@, newr.logs@.last())
            &&& newr.logs@.last().log_type == LogType::Ban
            &&& newr.logs@.last().details@ == ban_log_message(
                oldr.users@[a].username@,
                oldr.users@[t].username@,
                reason,
            )
            &&& newr.id == oldr.id
            &&& newr.name@ == oldr.name@
            &&& newr.password@ == oldr.password@
            &&& newr.role_manager@ == oldr.role_manager@
            &&& newr.tracks_queue@ == oldr.tracks_queue@
            &&& newr.max_users == oldr.max_users
            &&& newr.metadata == oldr.metadata
        }
}

/// What a successful leave did: the sole room-manager leaving removed the
/// whole room, anyone else just left the participant list.
pub open spec fn leave_applied(pre: Seq<Room>, post: Seq<Room>, room_id: u128, uid: Seq<char>) -> bool {
    exists|k: int|
        #[trigger] is_room_index(pre, room_id, k) && if spec_owner_and_alone(pre[k], uid) {
            post == pre.remove(k)
        } else {
            exists|a: int|
                is_user_index(pre[k].users@, uid, a) && post.len() == pre.len() && (forall|j: int|
                    0 <= j < pre.len() && j != k ==> post[j] == pre[j]) && same_except_users(
                    post[k],
                    pre[k],
                ) && post[k].users@ == pre[k].users@.remove(a)
        }
}

/// This participant is the room's sole room-manager: its own role grants
/// `can_manage_room`, and no other participant counts toward the manager
/// census.
pub open spec fn spec_owner_and_alone(room: Room, uid: Seq<char>) -> bool {
    exists|a: int, ri: int|
        #![trigger room.users@[a], room.role_manager@[ri]]
        is_user_index(room.users@, uid, a) && is_first_id_index(
            room.role_manager@,
            room.users@[a].role_id,
            ri,
        ) && room.role_manager@[ri].permissions.can_manage_room && manager_count(
            room.users@,
            room.role_manager@,
            room.role_manager@[ri].id,
        ) <= 1
}

/// The first position carrying a room tag is unique.
pub proof fn lemma_room_index_unique(rooms: Seq<Room>, id: u128, k1: int, k2: int)
    requires
        is_room_index(rooms, id, k1),
        is_room_index(rooms, id, k2),
    ensures
        k1 == k2,
{
}

/// What one reaper tick did to a room.
#[derive(Clone, Copy, Debug, PartialEq, Eq, Structural)]
pub enum ReaperStep {
    /// The room is gone from the registry; the loop stops.
    RoomGone,
    /// Someone is connected; the inactivity mark was cleared.
    Active,
    /// Nobody is connected; the inactivity mark was just set.
    MarkedInactive,
    /// Nobody is connected, but the window has not elapsed yet.
    Waiting,
    /// The window elapsed with nobody connected; the room was deleted.
    Deleted,
}

/// No two rooms share a tag.
pub open spec fn room_ids_unique(rooms: Seq<Room>) -> bool {
    forall|i: int, j: int|
        0 <= i < j < rooms.len() ==> (#[trigger] rooms[i].id) != (#[trigger] rooms[j].id)
}

/// No user id is a participant of two rooms.
pub open spec fn rooms_user_disjoint(rooms: Seq<Room>) -> bool {
    forall|i: int, j: int, a: int, b: int|
        #![trigger rooms[i].users@[a], rooms[j].users@[b]]
        0 <= i < j < rooms.len() && 0 <= a < rooms[i].users@.len() && 0 <= b
            < rooms[j].users@.len() ==> rooms[i].users@[a].id@ != rooms[j].users@[b].id@
}

/// Some room carries this tag.
pub open spec fn has_room_id(rooms: Seq<Room>, id: u128) -> bool {
    exists|i: int| 0 <= i < rooms.len() && (#[trigger] rooms[i].id) == id
}

/// `k` is the position of the first room carrying this tag.
pub open spec fn is_room_index(rooms: Seq<Room>, id: u128, k: int) -> bool {
    0 <= k < rooms.len() && rooms[k].id == id && (forall|j: int|
        0 <= j < k ==> (#[trigger] rooms[j].id) != id)
}

/// This user id is a participant of some room.
pub open spec fn user_id_in_rooms(rooms: Seq<Room>, uid: Seq<char>) -> bool {
    exists|i: int| 0 <= i < rooms.len() && has_user_id((#[trigger] rooms[i]).users@, uid)
}

/// The registry. It exclusively owns every room; sessions and loops
/// re-acquire a room by tag on each access.
#[derive(Debug)]
pub struct RoomManager {
    active_rooms: Vec<Room>,
}

impl View for RoomManager {
    type V = Seq<Room>;

    closed spec fn view(&self) -> Seq<Room> {
        self.active_rooms@
    }
}

/// Replacing one room with a well-formed room that carries the same tag
/// and whose participants either stood in the replaced room or in no room
/// at all keeps the registry well-formed.
proof fn lemma_wf_update_room(rooms: Seq<Room>, k: int, r: Room)
    requires
        0 <= k < rooms.len(),
        room_ids_unique(rooms),
        rooms_user_disjoint(rooms),
        forall|i: int| 0 <= i < rooms.len() ==> (#[trigger] rooms[i]).wf(),
        r.wf(),
        r.id == rooms[k].id,
        forall|a: int|
            0 <= a < r.users@.len() ==> has_user_id(rooms[k].users@, (#[trigger] r.users@[a]).id@)
                || !user_id_in_rooms(rooms, r.users@[a].id@),
    ensures
        room_ids_unique(rooms.update(k, r)),
        rooms_user_disjoint(rooms.update(k, r)),
        forall|i: int| 0 <= i < rooms.len() ==> (#[trigger] rooms.update(k, r)[i]).wf(),
{
    let upd = rooms.update(k, r);
    assert forall|i: int, j: int, a: int, b: int|
        0 <= i < j < upd.len() && 0 <= a < upd[i].users@.len() && 0 <= b
            < upd[j].users@.len() implies (#[trigger] upd[i].users@[a]).id@ != (
    #[trigger] upd[j].users@[b]).id@ by {
        if i != k && j != k {
            assert(upd[i] == rooms[i]);
            assert(upd[j] == rooms[j]);
        } else {
            let other = if i == k { j } else { i };
            let oa = if i == k { b } else { a };
            let ra = if i == k { a } else { b };
            assert(upd[other] == rooms[other]);
            let uid = r.users@[ra].id@;
            if has_user_id(rooms[k].users@, uid) {
                let a0 = choose|a0: int| 0 <= a0 < rooms[k].users@.len() && #[trigger] rooms[k].users@[a0].id@ == uid;
                assert(rooms[k].users@[a0].id@ != rooms[other].users@[oa].id@);
            } else {
                assert(!user_id_in_rooms(rooms, uid));
                assert(!has_user_id(rooms[other].users@, uid));
                assert(rooms[other].users@[oa].id@ != uid);
            }
        }
    }
}

/// Dropping one room keeps the registry well-formed.
proof fn lemma_wf_remove_room(rooms: Seq<Room>, k: int)
    requires
        0 <= k < rooms.len(),
        room_ids_unique(rooms),
        rooms_user_disjoint(rooms),
        forall|i: int| 0 <= i < rooms.len() ==> (#[trigger] rooms[i]).wf(),
    ensures
        room_ids_unique(rooms.remove(k)),
        rooms_user_disjoint(rooms.remove(k)),
        forall|i: int| 0 <= i < rooms.remove(k).len() ==> (#[trigger] rooms.remove(k)[i]).wf(),
        forall|uid: Seq<char>|
            #[trigger] user_id_in_rooms(rooms.remove(k), uid) ==> user_id_in_rooms(rooms, uid),
{
    rooms.remove_ensures(k);
    let rem = rooms.remove(k);
    assert forall|i: int| 0 <= i < rem.len() implies (#[trigger] rem[i]).wf() by {
        if i < k {
            assert(rem[i] == rooms[i]);
        } else {
            assert(rem[i] == rooms[i + 1]);
        }
    }
    assert forall|i: int, j: int| 0 <= i < j < rem.len() implies (#[trigger] rem[i].id) != (
    #[trigger] rem[j].id) by {
        let i0 = if i < k { i } else { i + 1 };
        let j0 = if j < k { j } else { j + 1 };
        assert(rem[i] == rooms[i0]);
        assert(rem[j] == rooms[j0]);
    }
    assert forall|i: int, j: int, a: int, b: int|
        0 <= i < j < rem.len() && 0 <= a < rem[i].users@.len() && 0 <= b
            < rem[j].users@.len() implies (#[trigger] rem[i].users@[a]).id@ != (
    #[trigger] rem[j].users@[b]).id@ by {
        let i0 = if i < k { i } else { i + 1 };
        let j0 = if j < k { j } else { j + 1 };
        assert(rem[i] == rooms[i0]);
        assert(rem[j] == rooms[j0]);
        assert(rooms[i0].users@[a].id@ != rooms[j0].users@[b].id@);
    }
    assert forall|uid: Seq<char>|
        #[trigger] user_id_in_rooms(rem, uid) implies user_id_in_rooms(rooms, uid) by {
        let i = choose|i: int| 0 <= i < rem.len() && has_user_id((#[trigger] rem[i]).users@, uid);
        let i0 = if i < k { i } else { i + 1 };
        assert(rem[i] == rooms[i0]);
        assert(has_user_id(rooms[i0].users@, uid));
    }
}

impl RoomManager {
    /// What the registry keeps true: room tags unique, every room
    /// well-formed, and every user id in at most one room.
    pub open spec fn wf(self) -> bool {
        &&& room_ids_unique(self@)
        &&& rooms_user_disjoint(self@)
        &&& (forall|i: int| 0 <= i < self@.len() ==> (#[trigger] self@[i]).wf())
    }

    /// This user id is a participant of some room.
    pub open spec fn spec_user_id_exists(self, uid: Seq<char>) -> bool {
        user_id_in_rooms(self@, uid)
    }

    /// An empty registry.
    pub fn new() -> (r: Self)
        ensures
            r@ == Seq::<Room>::empty(),
            r.wf(),
    {
        RoomManager { active_rooms: Vec::new() }
    }

    /// Whether this user id is a participant of any room.
    pub fn user_id_exists(&self, user_id: &RoomUserID) -> (b: bool)
        ensures
            b == self.spec_user_id_exists(user_id@),
    {
        let mut i: usize = 0;
        while i < self.active_rooms.len()
            invariant
                i <= self.active_rooms.len(),
                forall|j: int| 0 <= j < i ==> !has_user_id((#[trigger] self@[j]).users@, user_id@),
            decreases self.active_rooms.len() - i,
        {
            if self.active_rooms[i].has_user(user_id) {
                return true;
            }
            i = i + 1;
        }
        false
    }

    /// Position of the first room carrying this tag, if any.
    fn find_room(&self, room_id: RoomID) -> (r: Option<usize>)
        ensures
            match r {
                Some(k) => is_room_index(self@, room_id, k as int),
                None => !has_room_id(self@, room_id),
            },
    {
        let mut i: usize = 0;
        while i < self.active_rooms.len()
            invariant
                i <= self.active_rooms.len(),
                forall|j: int| 0 <= j < i ==> (#[trigger] self@[j].id) != room_id,
            decreases self.active_rooms.len() - i,
        {
            if self.active_rooms[i].id == room_id {
                return Some(i);
            }
            i = i + 1;
        }
        None
    }

    /// The room carrying this tag, if any.
    pub fn get_room(&self, room_id: &RoomID) -> (r: Option<&Room>)
        ensures
            match r {
                Some(room) => exists|k: int|
                    #[trigger] is_room_index(self@, *room_id, k) && *room == self@[k],
                None => !has_room_id(self@, *room_id),
            },
    {
        match self.find_room(*room_id) {
            Some(k) => {
                proof {
                    assert(is_room_index(self@, *room_id, k as int));
                }
                Some(&self.active_rooms[k])
            },
            None => None,
        }
    }

    /// The room this user id participates in, if any.
    pub fn get_room_for_user_id(&self, user_id: RoomUserID) -> (r: Option<&Room>)
        ensures
            match r {
                Some(room) => exists|k: int|
                    0 <= k < self@.len() && *room == self@[k] && has_user_id(
                        (#[trigger] self@[k]).users@,
                        user_id@,
                    ),
                None => !self.spec_user_id_exists(user_id@),
            },
    {
        let mut i: usize = 0;
        while i < self.active_rooms.len()
            invariant
                i <= self.active_rooms.len(),
                forall|j: int| 0 <= j < i ==> !has_user_id((#[trigger] self@[j]).users@, user_id@),
            decreases self.active_rooms.len() - i,
        {
            if self.active_rooms[i].has_user(&user_id) {
                return Some(&self.active_rooms[i]);
            }
            i = i + 1;
        }
        None
    }

    /// Creates a room under the given tag: the seeded role table, the
    /// caller as sole participant under the top role, a 16-character
    /// alphanumeric invite password, empty queue, ban list and log, and
    /// the supplied credentials. A user id already in use is refused, and
    /// a tag already held by a room fails the creation; otherwise the
    /// room is owed.
    pub fn create_room_with_tag(
        &mut self,
        tag: u128,
        user_id: RoomUserID,
        username: String,
        name: String,
        creds: CredentialsInput,
    ) -> (res: Result<Room, RoomError>)
        requires
            old(self).wf(),
        ensures
            final(self).wf(),
            match res {
                Err(e) => *final(self) == *old(self) && ((e == RoomError::UserIDExists && old(self).spec_user_id_exists(user_id@)) || (e == RoomError::RoomCreationFail && !old(self).spec_user_id_exists(user_id@) && has_room_id(old(self)@, tag))),
                Ok(room) => !old(self).spec_user_id_exists(user_id@) && !has_room_id(
                    old(self)@,
                    tag,
                ) && room.id == tag && room_created(
                    old(self)@,
                    final(self)@,
                    room,
                    user_id@,
                    username@,
                    name@,
                    creds,
                ),
            },
    {
        if self.user_id_exists(&user_id) {
            return Err(RoomError::UserIDExists);
        }
        let mut i: usize = 0;
        while i < self.active_rooms.len()
            invariant
                i <= self.active_rooms.len(),
                *self == *old(self),
                old(self).wf(),
                !old(self).spec_user_id_exists(user_id@),
                forall|j: int| 0 <= j < i ==> (#[trigger] self@[j].id) != tag,
            decreases self.active_rooms.len() - i,
        {
            if self.active_rooms[i].id == tag {
                return Err(RoomError::RoomCreationFail);
            }
            i = i + 1;
        }
        let role_manager = RoleManager::default();
        let owner_role_id = role_manager.get_roles()[0].id;
        let mut users: Vec<RoomUser> = Vec::new();
        users.push(RoomUser { id: user_id, username, role_id: owner_role_id, is_connected: false });
        let room = Room {
            id: tag,
            name,
            password: random_alphanumeric_string(16),
            users,
            banned_users: Vec::new(),
            role_manager,
            tracks_queue: std::collections::VecDeque::new(),
            max_users: MAX_USERS,
            logs: std::collections::VecDeque::new(),
            metadata: RoomMetadata::new(creds.into_tokens()),
        };
        let out = room.clone();
        let ghost old_rooms = self@;
        let ghost new_room = room;
        self.active_rooms.push(room);
        proof {
            assert(self@.subrange(0, old_rooms.len() as int) =~= old_rooms);
            assert(new_room.wf());
            assert forall|p: int, q: int| 0 <= p < q < self@.len() implies (#[trigger] self@[p].id)
                != (#[trigger] self@[q].id) by {
                if q < self@.len() - 1 {
                    assert(self@[p] == old_rooms[p]);
                    assert(self@[q] == old_rooms[q]);
                } else {
                    assert(self@[p] == old_rooms[p]);
                    assert(self@[q] == new_room);
                }
            }
            assert forall|p: int, q: int, a: int, b: int|
                0 <= p < q < self@.len() && 0 <= a < self@[p].users@.len() && 0 <= b
                    < self@[q].users@.len() implies (#[trigger] self@[p].users@[a]).id@ != (
            #[trigger] self@[q].users@[b]).id@ by {
                if q < self@.len() - 1 {
                    assert(self@[p] == old_rooms[p]);
                    assert(self@[q] == old_rooms[q]);
                } else {
                    assert(self@[p] == old_rooms[p]);
                    assert(self@[q] == new_room);
                    assert(!has_user_id(old_rooms[p].users@, new_room.users@[b].id@));
                }
            }
            assert forall|p: int| 0 <= p < self@.len() implies (#[trigger] self@[p]).wf() by {
                if p < self@.len() - 1 {
                    assert(self@[p] == old_rooms[p]);
                }
            }
        }
        Ok(out)
    }

    /// Creates a room for this caller under a freshly drawn tag. The tag
    /// comes from the clock and entropy, so a collision — impossible on
    /// an empty registry — is the one failure left beyond a user id in
    /// use; everything after the draw is `create_room_with_tag`.
    pub fn create_room(
        &mut self,
        user_id: RoomUserID,
        username: String,
        name: String,
        creds: CredentialsInput,
    ) -> (res: Result<Room, RoomError>)
        requires
            old(self).wf(),
        ensures
            final(self).wf(),
            match res {
                Err(e) => *final(self) == *old(self) && ((e == RoomError::UserIDExists && old(self).spec_user_id_exists(user_id@)) || (e == RoomError::RoomCreationFail && !old(self).spec_user_id_exists(user_id@) && old(self)@.len() > 0)),
                Ok(room) => !old(self).spec_user_id_exists(user_id@) && room_created(
                    old(self)@,
                    final(self)@,
                    room,
                    user_id@,
                    username@,
                    name@,
                    creds,
                ),
            },
    {
        let tag = new_tag();
        let res = self.create_room_with_tag(tag, user_id, username, name, creds);
        proof {
            if res matches Err(e) && e == RoomError::RoomCreationFail {
                let w = choose|w: int|
                    0 <= w < old(self)@.len() && (#[trigger] old(self)@[w].id) == tag;
            }
        }
        res
    }

    /// Deletes a room. With an acting user id the actor must be a
    /// participant whose role grants `can_manage_room`; without one the
    /// call is reaper-initiated and unconditional.
    pub fn delete_room(&mut self, room_id: RoomID, user_id: Option<RoomUserID>) -> (res: Result<
        (),
        RoomError,
    >)
        requires
            old(self).wf(),
        ensures
            final(self).wf(),
            match res {
                Err(e) => *final(self) == *old(self) && match e {
                    RoomError::RoomNotFound => !has_room_id(old(self)@, room_id),
                    RoomError::RoomUserNotFound => user_id matches Some(u) && exists|k: int|
                        #[trigger] is_room_index(old(self)@, room_id, k) && !has_user_id(
                            old(self)@[k].users@,
                            u@,
                        ),
                    RoomError::RoleNotFound => user_id matches Some(u) && exists|k: int, a: int|
                        #[trigger] is_room_index(old(self)@, room_id, k) && is_user_index(
                            old(self)@[k].users@,
                            u@,
                            a,
                        ) && !has_role_id(
                            old(self)@[k].role_manager@,
                            #[trigger] old(self)@[k].users@[a].role_id,
                        ),
                    RoomError::Unauthorized => user_id matches Some(u) && exists|
                        k: int,
                        a: int,
                        ri: int,
                    |
                        #![trigger is_room_index(old(self)@, room_id, k), old(self)@[k].users@[a], old(self)@[k].role_manager@[ri]]
                        is_room_index(old(self)@, room_id, k) && is_user_index(
                            old(self)@[k].users@,
                            u@,
                            a,
                        ) && is_first_id_index(
                            old(self)@[k].role_manager@,
                            old(self)@[k].users@[a].role_id,
                            ri,
                        ) && !old(self)@[k].role_manager@[ri].permissions.can_manage_room,
                    _ => false,
                },
                Ok(()) => exists|k: int|
                    #[trigger] is_room_index(old(self)@, room_id, k) && final(self)@ == old(self)@.remove(k) && match user_id {
                        Some(u) => exists|a: int, ri: int|
                            #![trigger old(self)@[k].users@[a], old(self)@[k].role_manager@[ri]]
                            is_user_index(old(self)@[k].users@, u@, a) && is_first_id_index(
                                old(self)@[k].role_manager@,
                                old(self)@[k].users@[a].role_id,
                                ri,
                            ) && old(self)@[k].role_manager@[ri].permissions.can_manage_room,
                        None => true,
                    },
            },
    {
        let k = match self.find_room(room_id) {
            None => {
                return Err(RoomError::RoomNotFound);
            },
            Some(k) => k,
        };
        if let Some(u) = user_id {
            let room = &self.active_rooms[k];
            let a = match room.user_index(&u) {
                None => {
                    return Err(RoomError::RoomUserNotFound);
                },
                Some(a) => a,
            };
            let role = match room.role_manager.get_role_by_id(room.users[a].role_id) {
                None => {
                    proof {
                        assert(is_user_index(self@[k as int].users@, u@, a as int));
                    }
                    return Err(RoomError::RoleNotFound);
                },
                Some(role) => role,
            };
            proof {
                let ghost rid = self@[k as int].users@[a as int].role_id;
                let ri = choose|ri: int|
                    0 <= ri < room.role_manager@.len() && *role == room.role_manager@[ri]
                        && #[trigger] room.role_manager@[ri].id == rid && (forall|j: int|
                        0 <= j < ri ==> room.role_manager@[j].id != rid);
                assert(is_first_id_index(room.role_manager@, rid, ri));
                assert(is_user_index(self@[k as int].users@, u@, a as int));
            }
            if !role.permissions.can_manage_room {
                return Err(RoomError::Unauthorized);
            }
        }
        let ghost old_rooms = self@;
        let _ = self.active_rooms.remove(k);
        proof {
            lemma_wf_remove_room(old_rooms, k as int);
        }
        Ok(())
    }

    /// Flips one participant's connected flag.
    pub fn set_ws_user_state(
        &mut self,
        room_id: RoomID,
        user_id: &RoomUserID,
        is_connected: bool,
    ) -> (res: Result<(), RoomError>)
        requires
            old(self).wf(),
        ensures
            final(self).wf(),
            match res {
                Err(e) => *final(self) == *old(self) && match e {
                    RoomError::RoomNotFound => !has_room_id(old(self)@, room_id),
                    RoomError::RoomUserNotFound => exists|k: int|
                        #[trigger] is_room_index(old(self)@, room_id, k) && !has_user_id(
                            old(self)@[k].users@,
                            user_id@,
                        ),
                    _ => false,
                },
                Ok(()) => exists|k: int, a: int|
                    #![trigger is_room_index(old(self)@, room_id, k), old(self)@[k].users@[a]]
                    is_room_index(old(self)@, room_id, k) && is_user_index(
                        old(self)@[k].users@,
                        user_id@,
                        a,
                    ) && final(self)@.len() == old(self)@.len() && (forall|j: int|
                        0 <= j < old(self)@.len() && j != k ==> final(self)@[j] == old(self)@[j])
                        && same_except_users(final(self)@[k], old(self)@[k])
                        && final(self)@[k].users@ == old(self)@[k].users@.update(
                        a,
                        RoomUser {
                            is_connected,
                            id: old(self)@[k].users@[a].id,
                            username: old(self)@[k].users@[a].username,
                            role_id: old(self)@[k].users@[a].role_id,
                        },
                    ),
            },
    {
        let k = match self.find_room(room_id) {
            None => {
                return Err(RoomError::RoomNotFound);
            },
            Some(k) => k,
        };
        let a = match self.active_rooms[k].user_index(user_id) {
            None => {
                return Err(RoomError::RoomUserNotFound);
            },
            Some(a) => a,
        };
        let ghost old_rooms = self@;
        let room = &mut self.active_rooms[k];
        room.set_user_connected(a, is_connected);
        proof {
            crate::room::lemma_wf_users_pointwise(self@[k as int], old_rooms[k as int]);
            lemma_wf_update_room(old_rooms, k as int, self@[k as int]);
            assert(self@ =~= old_rooms.update(k as int, self@[k as int]));
        }
        Ok(())
    }

    /// Renames one participant.
    pub fn change_username(&mut self, id: RoomID, user_id: RoomUserID, username: String) -> (res:
        Result<(), RoomError>)
        requires
            old(self).wf(),
        ensures
            final(self).wf(),
            match res {
                Err(e) => *final(self) == *old(self) && match e {
                    RoomError::RoomNotFound => !has_room_id(old(self)@, id),
                    RoomError::RoomUserNotFound => exists|k: int|
                        #[trigger] is_room_index(old(self)@, id, k) && !has_user_id(
                            old(self)@[k].users@,
                            user_id@,
                        ),
                    _ => false,
                },
                Ok(()) => exists|k: int, a: int|
                    #![trigger is_room_index(old(self)@, id, k), old(self)@[k].users@[a]]
                    is_room_index(old(self)@, id, k) && is_user_index(
                        old(self)@[k].users@,
                        user_id@,
                        a,
                    ) && final(self)@.len() == old(self)@.len() && (forall|j: int|
                        0 <= j < old(self)@.len() && j != k ==> final(self)@[j] == old(self)@[j])
                        && same_except_users(final(self)@[k], old(self)@[k])
                        && final(self)@[k].users@ == old(self)@[k].users@.update(
                        a,
                        RoomUser {
                            username,
                            id: old(self)@[k].users@[a].id,
                            role_id: old(self)@[k].users@[a].role_id,
                            is_connected: old(self)@[k].users@[a].is_connected,
                        },
                    ),
            },
    {
        let k = match self.find_room(id) {
            None => {
                return Err(RoomError::RoomNotFound);
            },
            Some(k) => k,
        };
        let a = match self.active_rooms[k].user_index(&user_id) {
            None => {
                return Err(RoomError::RoomUserNotFound);
            },
            Some(a) => a,
        };
        let ghost old_rooms = self@;
        let room = &mut self.active_rooms[k];
        room.set_username(a, username);
        proof {
            crate::room::lemma_wf_users_pointwise(self@[k as int], old_rooms[k as int]);
            lemma_wf_update_room(old_rooms, k as int, self@[k as int]);
            assert(self@ =~= old_rooms.update(k as int, self@[k as int]));
        }
        Ok(())
    }

    /// Adds a participant: refused when the user id is in use anywhere,
    /// the room is unknown, the id is banned, or the room is full. The
    /// newcomer enters disconnected, under the table's least powerful
    /// role; an empty table is reseeded with a Guest role first.
    pub fn join_room(&mut self, room_id: RoomID, username: String, user_id: RoomUserID) -> (res:
        Result<Room, RoomError>)
        requires
            old(self).wf(),
        ensures
            final(self).wf(),
            match res {
                Err(e) => *final(self) == *old(self) && match e {
                    RoomError::UserIDExists => old(self).spec_user_id_exists(user_id@),
                    RoomError::RoomNotFound => !old(self).spec_user_id_exists(user_id@)
                        && !has_room_id(old(self)@, room_id),
                    RoomError::UserBanned => !old(self).spec_user_id_exists(user_id@) && exists|
                        k: int,
                    |
                        #[trigger] is_room_index(old(self)@, room_id, k) && is_banned_id(
                            old(self)@[k].banned_users@,
                            user_id@,
                        ),
                    RoomError::RoomFull => !old(self).spec_user_id_exists(user_id@) && exists|
                        k: int,
                    |
                        #[trigger] is_room_index(old(self)@, room_id, k) && !is_banned_id(
                            old(self)@[k].banned_users@,
                            user_id@,
                        ) && old(self)@[k].users@.len() >= old(self)@[k].max_users,
                    _ => false,
                },
                Ok(room) => !old(self).spec_user_id_exists(user_id@) && exists|k: int|
                    #[trigger] is_room_index(old(self)@, room_id, k) && !is_banned_id(
                        old(self)@[k].banned_users@,
                        user_id@,
                    ) && old(self)@[k].users@.len() < old(self)@[k].max_users
                        && final(self)@.len() == old(self)@.len() && (forall|j: int|
                        0 <= j < old(self)@.len() && j != k ==> final(self)@[j] == old(self)@[j])
                        && room_equiv(room, final(self)@[k]) && {
                        let oldr = old(self)@[k];
                        let newr = final(self)@[k];
                        let joined = newr.users@.last();
                        &&& newr.users@ == oldr.users@.push(joined)
                        &&& joined.id@ == user_id@
                        &&& joined.username@ == username@
                        &&& joined.is_connected == false
                        &&& newr.id == oldr.id
                        &&& newr.name@ == oldr.name@
                        &&& newr.password@ == oldr.password@
                        &&& newr.banned_users@ == oldr.banned_users@
                        &&& newr.tracks_queue@ == oldr.tracks_queue@
                        &&& newr.max_users == oldr.max_users
                        &&& newr.logs@ == oldr.logs@
                        &&& newr.metadata == oldr.metadata
                        &&& newr.role_manager@.len() > 0
                        &&& joined.role_id == newr.role_manager@.last().id
                        &&& (oldr.role_manager@.len() > 0 ==> newr.role_manager@
                            == oldr.role_manager@)
                        &&& (oldr.role_manager@.len() == 0 ==> newr.role_manager@.len() == 1
                            && newr.role_manager@[0].permissions == guest_permissions())
                    },
            },
    {
        if self.user_id_exists(&user_id) {
            return Err(RoomError::UserIDExists);
        }
        let k = match self.find_room(room_id) {
            None => {
                return Err(RoomError::RoomNotFound);
            },
            Some(k) => k,
        };
        if self.active_rooms[k].is_banned(&user_id) {
            return Err(RoomError::UserBanned);
        }
        if self.active_rooms[k].users.len() >= self.active_rooms[k].max_users {
            return Err(RoomError::RoomFull);
        }
        let ghost old_rooms = self@;
        let room = &mut self.active_rooms[k];
        if room.role_manager.get_roles().len() == 0 {
            let guest = Role::new_guest();
            let res = room.role_manager.add_role(guest.name, guest.permissions);
            proof {
                broadcast use vstd::seq_lib::group_to_multiset_ensures;

                assert(res is Ok);
                assert(room.role_manager@.len() == 1);
                assert(room.role_manager@.contains(room.role_manager@[0]));
                let r = choose|r: Role|
                    r.name@ == "Guest"@ && r.permissions == guest_permissions()
                        && room.role_manager@.to_multiset() == old_rooms[k as int].role_manager@.to_multiset().insert(r);
                assert(room.role_manager@.to_multiset().count(room.role_manager@[0]) > 0);
                assert(old_rooms[k as int].role_manager@.to_multiset().count(room.role_manager@[0]) == 0);
                assert(room.role_manager@[0] == r);
            }
        }
        let n_roles = room.role_manager.get_roles().len();
        let role_id = room.role_manager.get_roles()[n_roles - 1].id;
        let joined = RoomUser { id: user_id, username, role_id, is_connected: false };
        room.push_user(joined);
        let out = room.clone();
        proof {
            let newr = self@[k as int];
            let oldr = old_rooms[k as int];
            assert(newr.users@.last().id@ == newr.users@.last().id@);
            assert(newr.wf()) by {
                assert forall|i: int, j: int| 0 <= i < j < newr.users@.len() implies newr.users@[i].id@
                    != newr.users@[j].id@ by {
                    if j < newr.users@.len() - 1 {
                        assert(newr.users@[i] == oldr.users@[i]);
                        assert(newr.users@[j] == oldr.users@[j]);
                    } else {
                        assert(newr.users@[i] == oldr.users@[i]);
                        assert(!user_id_in_rooms(old_rooms, user_id@));
                        assert(!has_user_id(oldr.users@, user_id@));
                    }
                }
                assert forall|i: int| 0 <= i < newr.users@.len() implies has_role_id(
                    newr.role_manager@,
                    #[trigger] newr.users@[i].role_id,
                ) by {
                    if i < newr.users@.len() - 1 {
                        assert(newr.users@[i] == oldr.users@[i]);
                        assert(oldr.wf());
                        assert(has_role_id(oldr.role_manager@, oldr.users@[i].role_id));
                        if oldr.role_manager@.len() == 0 {
                            let w = choose|w: int|
                                0 <= w < oldr.role_manager@.len() && #[trigger] oldr.role_manager@[w].id
                                    == oldr.users@[i].role_id;
                            assert(false);
                        }
                    } else {
                        let last = newr.role_manager@.len() - 1;
                        assert(newr.role_manager@[last].id == newr.users@[i].role_id);
                    }
                }
                assert forall|i: int|
                    0 <= i < newr.banned_users@.len() implies !has_user_id(
                    newr.users@,
                    (#[trigger] newr.banned_users@[i])@,
                ) by {
                    if has_user_id(newr.users@, newr.banned_users@[i]@) {
                        let x = choose|x: int|
                            0 <= x < newr.users@.len() && (#[trigger] newr.users@[x].id@)
                                == newr.banned_users@[i]@;
                        if x < newr.users@.len() - 1 {
                            assert(newr.users@[x] == oldr.users@[x]);
                            assert(has_user_id(oldr.users@, oldr.banned_users@[i]@));
                        } else {
                            assert(is_banned_id(oldr.banned_users@, user_id@));
                        }
                    }
                }
            }
            assert forall|a: int|
                0 <= a < newr.users@.len() implies has_user_id(
                oldr.users@,
                (#[trigger] newr.users@[a]).id@,
            ) || !user_id_in_rooms(old_rooms, newr.users@[a].id@) by {
                if a < newr.users@.len() - 1 {
                    assert(newr.users@[a] == oldr.users@[a]);
                }
            }
            lemma_wf_update_room(old_rooms, k as int, newr);
            assert(self@ =~= old_rooms.update(k as int, newr));
        }
        Ok(out)
    }

    /// Removes a participant and records a Kick log entry. A room whose
    /// command context names an absent author or target is corrupted:
    /// `Unreachable`.
    pub fn kick_user(
        &mut self,
        room_id: RoomID,
        author_id: &RoomUserID,
        user_id: &RoomUserID,
        reason: String,
    ) -> (res: Result<(), RoomError>)
        requires
            old(self).wf(),
        ensures
            final(self).wf(),
            match res {
                Err(e) => *final(self) == *old(self) && match e {
                    RoomError::RoomNotFound => !has_room_id(old(self)@, room_id),
                    RoomError::Unreachable => exists|k: int|
                        #[trigger] is_room_index(old(self)@, room_id, k) && (!has_user_id(
                            old(self)@[k].users@,
                            author_id@,
                        ) || !has_user_id(old(self)@[k].users@, user_id@)),
                    _ => false,
                },
                Ok(()) => kick_applied(
                    old(self)@,
                    final(self)@,
                    room_id,
                    author_id@,
                    user_id@,
                    reason@,
                ),
            },
    {
        let k = match self.find_room(room_id) {
            None => {
                return Err(RoomError::RoomNotFound);
            },
            Some(k) => k,
        };
        let a = match self.active_rooms[k].user_index(author_id) {
            None => {
                return Err(RoomError::Unreachable);
            },
            Some(a) => a,
        };
        let t = match self.active_rooms[k].user_index(user_id) {
            None => {
                return Err(RoomError::Unreachable);
            },
            Some(t) => t,
        };
        let author_name = self.active_rooms[k].users[a].username.clone();
        let target_name = self.active_rooms[k].users[t].username.clone();
        let mut details: String = "User ".to_owned();
        details.append(author_name.as_str());
        details.append(" kicked ");
        details.append(target_name.as_str());
        details.append(" from the room for: ");
        details.append(reason.as_str());
        let ghost old_rooms = self@;
        let room = &mut self.active_rooms[k];
        room.remove_user(t);
        room.push_log(Log::new(LogType::Kick, details));
        proof {
            let oldr = old_rooms[k as int];
            let newr = self@[k as int];
            assert(oldr.wf());
            lemma_users_remove(oldr.users@, t as int);
            assert(newr.wf()) by {
                assert forall|i: int| 0 <= i < newr.users@.len() implies has_role_id(
                    newr.role_manager@,
                    #[trigger] newr.users@[i].role_id,
                ) by {
                    let x0 = choose|x0: int|
                        0 <= x0 < oldr.users@.len() && oldr.users@[x0] == newr.users@[i];
                    assert(has_role_id(oldr.role_manager@, oldr.users@[x0].role_id));
                }
                assert forall|i: int|
                    0 <= i < newr.banned_users@.len() implies !has_user_id(
                    newr.users@,
                    (#[trigger] newr.banned_users@[i])@,
                ) by {
                    if has_user_id(newr.users@, newr.banned_users@[i]@) {
                        assert(has_user_id(oldr.users@, oldr.banned_users@[i]@));
                    }
                }
            }
            assert forall|x: int|
                0 <= x < newr.users@.len() implies has_user_id(
                oldr.users@,
                (#[trigger] newr.users@[x]).id@,
            ) || !user_id_in_rooms(old_rooms, newr.users@[x].id@) by {
                assert(has_user_id(newr.users@, newr.users@[x].id@));
            }
            lemma_wf_update_room(old_rooms, k as int, newr);
            assert(self@ =~= old_rooms.update(k as int, newr));
        }
        Ok(())
    }

    /// Removes a participant, puts the id on the ban list, and records a
    /// Ban log entry; a banned id cannot rejoin.
    pub fn ban_user(
        &mut self,
        room_id: RoomID,
        author_id: &RoomUserID,
        user_id: &RoomUserID,
        reason: String,
    ) -> (res: Result<(), RoomError>)
        requires
            old(self).wf(),
        ensures
            final(self).wf(),
            match res {
                Err(e) => *final(self) == *old(self) && match e {
                    RoomError::RoomNotFound => !has_room_id(old(self)@, room_id),
                    RoomError::Unreachable => exists|k: int|
                        #[trigger] is_room_index(old(self)@, room_id, k) && (!has_user_id(
                            old(self)@[k].users@,
                            author_id@,
                        ) || !has_user_id(old(self)@[k].users@, user_id@)),
                    _ => false,
                },
                Ok(()) => ban_applied(
                    old(self)@,
                    final(self)@,
                    room_id,
                    author_id@,
                    user_id@,
                    reason@,
                ),
            },
    {
        let k = match self.find_room(room_id) {
            None => {
                return Err(RoomError::RoomNotFound);
            },
            Some(k) => k,
        };
        let a = match self.active_rooms[k].user_index(author_id) {
            None => {
                return Err(RoomError::Unreachable);
            },
            Some(a) => a,
        };
        let t = match self.active_rooms[k].user_index(user_id) {
            None => {
                return Err(RoomError::Unreachable);
            },
            Some(t) => t,
        };
        let author_name = self.active_rooms[k].users[a].username.clone();
        let target_name = self.active_rooms[k].users[t].username.clone();
        let mut details: String = "User ".to_owned();
        details.append(author_name.as_str());
        details.append(" banned ");
        details.append(target_name.as_str());
        details.append(" from the room for: ");
        details.append(reason.as_str());
        let ghost old_rooms = self@;
        let room = &mut self.active_rooms[k];
        room.remove_user(t);
        room.push_banned(user_id.clone());
        room.push_log(Log::new(LogType::Ban, details));
        proof {
            let oldr = old_rooms[k as int];
            let newr = self@[k as int];
            assert(oldr.wf());
            lemma_users_remove(oldr.users@, t as int);
            assert(newr.banned_users@.last()@ == user_id@);
            assert(is_banned_id(newr.banned_users@, user_id@)) by {
                assert(newr.banned_users@[newr.banned_users@.len() - 1]@ == user_id@);
            }
            assert(newr.wf()) by {
                assert forall|i: int| 0 <= i < newr.users@.len() implies has_role_id(
                    newr.role_manager@,
                    #[trigger] newr.users@[i].role_id,
                ) by {
                    let x0 = choose|x0: int|
                        0 <= x0 < oldr.users@.len() && oldr.users@[x0] == newr.users@[i];
                    assert(has_role_id(oldr.role_manager@, oldr.users@[x0].role_id));
                }
                assert forall|i: int|
                    0 <= i < newr.banned_users@.len() implies !has_user_id(
                    newr.users@,
                    (#[trigger] newr.banned_users@[i])@,
                ) by {
                    if i < newr.banned_users@.len() - 1 {
                        assert(newr.banned_users@[i] == oldr.banned_users@[i]);
                        if has_user_id(newr.users@, newr.banned_users@[i]@) {
                            assert(has_user_id(oldr.users@, oldr.banned_users@[i]@));
                        }
                    } else {
                        assert(newr.banned_users@[i]@ == user_id@);
                        assert(oldr.users@[t as int].id@ == user_id@);
                        assert(!has_user_id(newr.users@, user_id@));
                    }
                }
            }
            assert forall|x: int|
                0 <= x < newr.users@.len() implies has_user_id(
                oldr.users@,
                (#[trigger] newr.users@[x]).id@,
            ) || !user_id_in_rooms(old_rooms, newr.users@[x].id@) by {
                assert(has_user_id(newr.users@, newr.users@[x].id@));
            }
            lemma_wf_update_room(old_rooms, k as int, newr);
            assert(self@ =~= old_rooms.update(k as int, newr));
        }
        Ok(())
    }

    /// Appends a track, submitted by a present participant, to the
    /// bounded FIFO queue.
    pub fn add_track_to_queue(
        &mut self,
        id: RoomID,
        user_id: RoomUserID,
        track_id: String,
        track_name: String,
        track_duration: u32,
    ) -> (res: Result<(), RoomError>)
        requires
            old(self).wf(),
        ensures
            final(self).wf(),
            match res {
                Err(e) => *final(self) == *old(self) && match e {
                    RoomError::RoomNotFound => !has_room_id(old(self)@, id),
                    RoomError::RoomUserNotFound => exists|k: int|
                        #[trigger] is_room_index(old(self)@, id, k) && !has_user_id(
                            old(self)@[k].users@,
                            user_id@,
                        ),
                    RoomError::RoomFull => exists|k: int|
                        #[trigger] is_room_index(old(self)@, id, k) && has_user_id(
                            old(self)@[k].users@,
                            user_id@,
                        ) && old(self)@[k].tracks_queue@.len() >= MAX_TRACKS_QUEUE_LEN as int,
                    _ => false,
                },
                Ok(()) => exists|k: int|
                    #[trigger] is_room_index(old(self)@, id, k) && has_user_id(
                        old(self)@[k].users@,
                        user_id@,
                    ) && old(self)@[k].tracks_queue@.len() < MAX_TRACKS_QUEUE_LEN as int && final(self)@.len() == old(self)@.len() && (forall|j: int|
                        0 <= j < old(self)@.len() && j != k ==> final(self)@[j] == old(self)@[j])
                        && same_except_tracks(final(self)@[k], old(self)@[k]) && final(self)@[k].tracks_queue@ == old(self)@[k].tracks_queue@.push(
                        RoomTrack { user_id, track_id, track_name, track_duration },
                    ),
            },
    {
        let k = match self.find_room(id) {
            None => {
                return Err(RoomError::RoomNotFound);
            },
            Some(k) => k,
        };
        if !self.active_rooms[k].has_user(&user_id) {
            return Err(RoomError::RoomUserNotFound);
        }
        if self.active_rooms[k].tracks_queue.len() >= MAX_TRACKS_QUEUE_LEN {
            return Err(RoomError::RoomFull);
        }
        let ghost old_rooms = self@;
        let room = &mut self.active_rooms[k];
        room.push_track(RoomTrack { user_id, track_id, track_name, track_duration });
        proof {
            let oldr = old_rooms[k as int];
            let newr = self@[k as int];
            assert(oldr.wf());
            assert forall|x: int|
                0 <= x < newr.users@.len() implies has_user_id(
                oldr.users@,
                (#[trigger] newr.users@[x]).id@,
            ) || !user_id_in_rooms(old_rooms, newr.users@[x].id@) by {
                assert(oldr.users@[x].id@ == newr.users@[x].id@);
            }
            lemma_wf_update_room(old_rooms, k as int, newr);
            assert(self@ =~= old_rooms.update(k as int, newr));
        }
        Ok(())
    }

    /// Drops the queue's front entry when — and only when — it carries
    /// this track id; called after each playback poll, and deliberately
    /// fail-free beyond the room lookup.
    pub fn remove_track_from_queue(&mut self, id: RoomID, track_id: String) -> (res: Result<
        (),
        RoomError,
    >)
        requires
            old(self).wf(),
        ensures
            final(self).wf(),
            match res {
                Err(e) => *final(self) == *old(self) && e == RoomError::RoomNotFound
                    && !has_room_id(old(self)@, id),
                Ok(()) => track_head_dequeued(old(self)@, final(self)@, id, track_id@),
            },
    {
        let k = match self.find_room(id) {
            None => {
                return Err(RoomError::RoomNotFound);
            },
            Some(k) => k,
        };
        let ghost old_rooms = self@;
        if self.active_rooms[k].tracks_queue.len() > 0 && self.active_rooms[k].tracks_queue[0].track_id
            == track_id {
            let room = &mut self.active_rooms[k];
            room.pop_front_track();
            proof {
                let oldr = old_rooms[k as int];
                let newr = self@[k as int];
                assert(oldr.wf());
                assert forall|x: int|
                    0 <= x < newr.users@.len() implies has_user_id(
                    oldr.users@,
                    (#[trigger] newr.users@[x]).id@,
                ) || !user_id_in_rooms(old_rooms, newr.users@[x].id@) by {
                    assert(oldr.users@[x].id@ == newr.users@[x].id@);
                }
                lemma_wf_update_room(old_rooms, k as int, newr);
                assert(self@ =~= old_rooms.update(k as int, newr));
            }
        } else {
            proof {
                assert(is_room_index(old_rooms, id, k as int));
            }
        }
        Ok(())
    }

    /// Appends a log entry to a room's ring-buffered log.
    pub fn append_log(&mut self, room_id: RoomID, log: Log) -> (res: Result<(), RoomError>)
        requires
            old(self).wf(),
        ensures
            final(self).wf(),
            match res {
                Err(e) => *final(self) == *old(self) && e == RoomError::RoomNotFound
                    && !has_room_id(old(self)@, room_id),
                Ok(()) => exists|k: int|
                    #[trigger] is_room_index(old(self)@, room_id, k) && final(self)@.len() == old(self)@.len() && (forall|j: int|
                        0 <= j < old(self)@.len() && j != k ==> final(self)@[j] == old(self)@[j])
                        && same_except_logs(final(self)@[k], old(self)@[k]) && final(self)@[k].logs@ == logs_after_push(old(self)@[k].logs@, log),
            },
    {
        let k = match self.find_room(room_id) {
            None => {
                return Err(RoomError::RoomNotFound);
            },
            Some(k) => k,
        };
        let ghost old_rooms = self@;
        let room = &mut self.active_rooms[k];
        room.push_log(log);
        proof {
            let oldr = old_rooms[k as int];
            let newr = self@[k as int];
            assert(oldr.wf());
            assert forall|x: int|
                0 <= x < newr.users@.len() implies has_user_id(
                oldr.users@,
                (#[trigger] newr.users@[x]).id@,
            ) || !user_id_in_rooms(old_rooms, newr.users@[x].id@) by {
                assert(oldr.users@[x].id@ == newr.users@[x].id@);
            }
            lemma_wf_update_room(old_rooms, k as int, newr);
            assert(self@ =~= old_rooms.update(k as int, newr));
        }
        Ok(())
    }

    /// Whether this participant holds a `can_manage_room` role and nobody
    /// else counts toward the manager census — the participant whose
    /// leaving tears the room down.
    pub fn is_user_an_owner_and_alone(&self, room_id: RoomID, user_id: &RoomUserID) -> (res:
        Result<bool, RoomError>)
        requires
            self.wf(),
        ensures
            match res {
                Err(e) => match e {
                    RoomError::RoomNotFound => !has_room_id(self@, room_id),
                    RoomError::RoomUserNotFound => exists|k: int|
                        #[trigger] is_room_index(self@, room_id, k) && !has_user_id(
                            self@[k].users@,
                            user_id@,
                        ),
                    RoomError::RoleNotFound => exists|k: int, a: int|
                        #![trigger is_room_index(self@, room_id, k), self@[k].users@[a]]
                        is_room_index(self@, room_id, k) && is_user_index(
                            self@[k].users@,
                            user_id@,
                            a,
                        ) && !has_role_id(self@[k].role_manager@, self@[k].users@[a].role_id),
                    _ => false,
                },
                Ok(b) => exists|k: int|
                    #[trigger] is_room_index(self@, room_id, k) && has_user_id(
                        self@[k].users@,
                        user_id@,
                    ) && b == spec_owner_and_alone(self@[k], user_id@),
            },
    {
        let k = match self.find_room(room_id) {
            None => {
                return Err(RoomError::RoomNotFound);
            },
            Some(k) => k,
        };
        let room = &self.active_rooms[k];
        let a = match room.user_index(user_id) {
            None => {
                return Err(RoomError::RoomUserNotFound);
            },
            Some(a) => a,
        };
        let role = match room.role_manager.get_role_by_id(room.users[a].role_id) {
            None => {
                proof {
                    assert(is_user_index(self@[k as int].users@, user_id@, a as int));
                }
                return Err(RoomError::RoleNotFound);
            },
            Some(role) => role,
        };
        let ghost rid = room.users@[a as int].role_id;
        let ghost ri0 = choose|ri0: int|
            0 <= ri0 < room.role_manager@.len() && *role == room.role_manager@[ri0]
                && #[trigger] room.role_manager@[ri0].id == rid && (forall|j: int|
                0 <= j < ri0 ==> room.role_manager@[j].id != rid);
        proof {
            assert(is_first_id_index(room.role_manager@, rid, ri0));
        }
        let b: bool = if role.permissions.can_manage_room {
            room.count_room_managers(role.id) <= 1
        } else {
            false
        };
        proof {
            assert(room.wf());
            if b {
                assert(spec_owner_and_alone(self@[k as int], user_id@));
            } else {
                if spec_owner_and_alone(self@[k as int], user_id@) {
                    let (a2, ri2) = choose|a2: int, ri2: int|
                        #![trigger room.users@[a2], room.role_manager@[ri2]]
                        is_user_index(room.users@, user_id@, a2) && is_first_id_index(
                            room.role_manager@,
                            room.users@[a2].role_id,
                            ri2,
                        ) && room.role_manager@[ri2].permissions.can_manage_room && manager_count(
                            room.users@,
                            room.role_manager@,
                            room.role_manager@[ri2].id,
                        ) <= 1;
                    lemma_user_index_unique(room.users@, user_id@, a2, a as int);
                    lemma_first_id_index_unique(room.role_manager@, rid, ri2, ri0);
                    assert(false);
                }
            }
            assert(has_user_id(self@[k as int].users@, user_id@));
        }
        Ok(b)
    }

    /// Removes the caller from the room; the sole room-manager leaving
    /// deletes the whole room instead.
    pub fn leave_room(&mut self, room_id: RoomID, user_id: RoomUserID) -> (res: Result<
        (),
        RoomError,
    >)
        requires
            old(self).wf(),
        ensures
            final(self).wf(),
            match res {
                Err(e) => *final(self) == *old(self) && match e {
                    RoomError::RoomNotFound => !has_room_id(old(self)@, room_id),
                    RoomError::RoomUserNotFound => exists|k: int|
                        #[trigger] is_room_index(old(self)@, room_id, k) && !has_user_id(
                            old(self)@[k].users@,
                            user_id@,
                        ),
                    RoomError::RoleNotFound => exists|k: int, a: int|
                        #![trigger is_room_index(old(self)@, room_id, k), old(self)@[k].users@[a]]
                        is_room_index(old(self)@, room_id, k) && is_user_index(
                            old(self)@[k].users@,
                            user_id@,
                            a,
                        ) && !has_role_id(
                            old(self)@[k].role_manager@,
                            old(self)@[k].users@[a].role_id,
                        ),
                    _ => false,
                },
                Ok(()) => leave_applied(old(self)@, final(self)@, room_id, user_id@),
            },
    {
        let alone = match self.is_user_an_owner_and_alone(room_id, &user_id) {
            Err(e) => {
                return Err(e);
            },
            Ok(b) => b,
        };
        if alone {
            let res = self.delete_room(room_id, Some(user_id));
            proof {
                if res is Err {
                    assert(false);
                }
                let k = choose|k: int|
                    #[trigger] is_room_index(old(self)@, room_id, k) && final(self)@ == old(self)@.remove(k);
                assert(is_room_index(old(self)@, room_id, k));
            }
            return res;
        }
        let k = match self.find_room(room_id) {
            None => {
                return Err(RoomError::RoomNotFound);
            },
            Some(k) => k,
        };
        let a = match self.active_rooms[k].user_index(&user_id) {
            None => {
                return Err(RoomError::RoomUserNotFound);
            },
            Some(a) => a,
        };
        let ghost old_rooms = self@;
        let room = &mut self.active_rooms[k];
        room.remove_user(a);
        proof {
            let oldr = old_rooms[k as int];
            let newr = self@[k as int];
            assert(oldr.wf());
            lemma_users_remove(oldr.users@, a as int);
            assert(newr.wf()) by {
                assert forall|i: int| 0 <= i < newr.users@.len() implies has_role_id(
                    newr.role_manager@,
                    #[trigger] newr.users@[i].role_id,
                ) by {
                    let x0 = choose|x0: int|
                        0 <= x0 < oldr.users@.len() && oldr.users@[x0] == newr.users@[i];
                    assert(has_role_id(oldr.role_manager@, oldr.users@[x0].role_id));
                }
                assert forall|i: int|
                    0 <= i < newr.banned_users@.len() implies !has_user_id(
                    newr.users@,
                    (#[trigger] newr.banned_users@[i])@,
                ) by {
                    if has_user_id(newr.users@, newr.banned_users@[i]@) {
                        assert(has_user_id(oldr.users@, oldr.banned_users@[i]@));
                    }
                }
            }
            assert forall|x: int|
                0 <= x < newr.users@.len() implies has_user_id(
                oldr.users@,
                (#[trigger] newr.users@[x]).id@,
            ) || !user_id_in_rooms(old_rooms, newr.users@[x].id@) by {
                assert(has_user_id(newr.users@, newr.users@[x].id@));
            }
            lemma_wf_update_room(old_rooms, k as int, newr);
            assert(self@ =~= old_rooms.update(k as int, newr));
        }
        Ok(())
    }

    /// One reaper tick: a room with no connected participant is marked,
    /// and once the mark is `INACTIVE_ROOM_SECS` old the room is deleted;
    /// any connected participant clears the mark.
    pub fn room_activity_tick(&mut self, room_id: RoomID, now: u64) -> (r: ReaperStep)
        requires
            old(self).wf(),
        ensures
            final(self).wf(),
            match r {
                ReaperStep::RoomGone => *final(self) == *old(self) && !has_room_id(
                    old(self)@,
                    room_id,
                ),
                ReaperStep::Active => exists|k: int|
                    #[trigger] is_room_index(old(self)@, room_id, k) && (exists|i: int|
                        0 <= i < old(self)@[k].users@.len()
                            && (#[trigger] old(self)@[k].users@[i]).is_connected) && final(self)@.len() == old(self)@.len() && (forall|j: int|
                        0 <= j < old(self)@.len() && j != k ==> final(self)@[j] == old(self)@[j])
                        && same_except_metadata(final(self)@[k], old(self)@[k]) && final(self)@[k].metadata.inactive_since is None && final(self)@[k].metadata.spotify_tokens == old(self)@[k].metadata.spotify_tokens && final(self)@[k].metadata.are_threads_initiated == old(self)@[k].metadata.are_threads_initiated,
                ReaperStep::MarkedInactive => exists|k: int|
                    #[trigger] is_room_index(old(self)@, room_id, k) && (forall|i: int|
                        0 <= i < old(self)@[k].users@.len() ==> !(
                        #[trigger] old(self)@[k].users@[i]).is_connected) && old(self)@[k].metadata.inactive_since is None && final(self)@.len() == old(self)@.len() && (forall|j: int|
                        0 <= j < old(self)@.len() && j != k ==> final(self)@[j] == old(self)@[j])
                        && same_except_metadata(final(self)@[k], old(self)@[k]) && final(self)@[k].metadata.inactive_since == Some(now) && final(self)@[k].metadata.spotify_tokens == old(self)@[k].metadata.spotify_tokens && final(self)@[k].metadata.are_threads_initiated == old(self)@[k].metadata.are_threads_initiated,
                ReaperStep::Waiting => *final(self) == *old(self) && exists|k: int|
                    #[trigger] is_room_index(old(self)@, room_id, k) && (forall|i: int|
                        0 <= i < old(self)@[k].users@.len() ==> !(
                        #[trigger] old(self)@[k].users@[i]).is_connected)
                        && (old(self)@[k].metadata.inactive_since matches Some(t) && (now as int)
                        < t + INACTIVE_ROOM_SECS),
                ReaperStep::Deleted => exists|k: int|
                    #[trigger] is_room_index(old(self)@, room_id, k) && (forall|i: int|
                        0 <= i < old(self)@[k].users@.len() ==> !(
                        #[trigger] old(self)@[k].users@[i]).is_connected)
                        && (old(self)@[k].metadata.inactive_since matches Some(t) && (now as int)
                        >= t + INACTIVE_ROOM_SECS && final(self)@ == old(self)@.remove(k)),
            },
    {
        let k = match self.find_room(room_id) {
            None => {
                return ReaperStep::RoomGone;
            },
            Some(k) => k,
        };
        let ghost old_rooms = self@;
        if self.active_rooms[k].any_connected() {
            let room = &mut self.active_rooms[k];
            room.set_inactive_since(None);
            proof {
                let newr = self@[k as int];
                assert(old_rooms[k as int].wf());
                assert forall|x: int|
                    0 <= x < newr.users@.len() implies has_user_id(
                    old_rooms[k as int].users@,
                    (#[trigger] newr.users@[x]).id@,
                ) || !user_id_in_rooms(old_rooms, newr.users@[x].id@) by {
                    assert(old_rooms[k as int].users@[x].id@ == newr.users@[x].id@);
                }
                lemma_wf_update_room(old_rooms, k as int, newr);
                assert(self@ =~= old_rooms.update(k as int, newr));
            }
            return ReaperStep::Active;
        }
        match self.active_rooms[k].metadata.inactive_since {
            None => {
                let room = &mut self.active_rooms[k];
                room.set_inactive_since(Some(now));
                proof {
                    let newr = self@[k as int];
                    assert(old_rooms[k as int].wf());
                    assert forall|x: int|
                        0 <= x < newr.users@.len() implies has_user_id(
                        old_rooms[k as int].users@,
                        (#[trigger] newr.users@[x]).id@,
                    ) || !user_id_in_rooms(old_rooms, newr.users@[x].id@) by {
                        assert(old_rooms[k as int].users@[x].id@ == newr.users@[x].id@);
                    }
                    lemma_wf_update_room(old_rooms, k as int, newr);
                    assert(self@ =~= old_rooms.update(k as int, newr));
                }
                ReaperStep::MarkedInactive
            },
            Some(t) => {
                if now >= t && now - t >= INACTIVE_ROOM_SECS {
                    let res = self.delete_room(room_id, None);
                    proof {
                        if res is Err {
                            assert(false);
                        }
                        let k2 = choose|k2: int|
                            #[trigger] is_room_index(old(self)@, room_id, k2) && final(self)@
                                == old(self)@.remove(k2);
                        lemma_room_index_unique(old(self)@, room_id, k2, k as int);
                    }
                    ReaperStep::Deleted
                } else {
                    ReaperStep::Waiting
                }
            },
        }
    }

    /// What the poll loop does with a fresh playback snapshot: the track
    /// the provider is playing head-dequeues the room's queue, and the
    /// snapshot sets the next poll's cadence — the adaptive delay while
    /// something plays, nothing otherwise.
    pub fn handle_playback_snapshot(
        &mut self,
        room_id: RoomID,
        playback: &Option<crate::spotify_web_utils::SpotifyCurrentPlaybackOutput>,
    ) -> (r: Option<u64>)
        requires
            old(self).wf(),
            playback matches Some(pb) ==> pb.duration_ms <= u64::MAX
                - crate::spotify::FETCH_OFFSET_MS && (pb.progress_ms matches Some(p) ==> p
                <= pb.duration_ms),
        ensures
            final(self).wf(),
            match playback {
                None => *final(self) == *old(self) && r is None,
                Some(pb) => (r matches Some(d) && d as int
                    == crate::spotify::spec_next_poll_delay_ms(
                    pb.is_playing,
                    pb.progress_ms,
                    pb.duration_ms,
                )) && if has_room_id(old(self)@, room_id) {
                    track_head_dequeued(old(self)@, final(self)@, room_id, pb.track_id@)
                } else {
                    *final(self) == *old(self)
                },
            },
    {
        let pb = match playback {
            None => {
                return None;
            },
            Some(pb) => pb,
        };
        let delay = crate::spotify::next_poll_delay_ms(
            pb.is_playing,
            pb.progress_ms,
            pb.duration_ms,
        );
        match self.remove_track_from_queue(room_id, pb.track_id.clone()) {
            Ok(()) => {},
            Err(_) => {},
        }
        Some(delay)
    }

    /// Marks a room's background loops as started; one-shot, flipped by
    /// the first session of the room.
    pub fn mark_room_threads_initiated(&mut self, room_id: RoomID) -> (res: Result<(), RoomError>)
        requires
            old(self).wf(),
        ensures
            final(self).wf(),
            match res {
                Err(e) => *final(self) == *old(self) && e == RoomError::RoomNotFound
                    && !has_room_id(old(self)@, room_id),
                Ok(()) => exists|k: int|
                    #[trigger] is_room_index(old(self)@, room_id, k) && final(self)@.len() == old(self)@.len() && (forall|j: int|
                        0 <= j < old(self)@.len() && j != k ==> final(self)@[j] == old(self)@[j])
                        && same_except_metadata(final(self)@[k], old(self)@[k])
                        && final(self)@[k].metadata.are_threads_initiated
                        && final(self)@[k].metadata.inactive_since == old(self)@[k].metadata.inactive_since && final(self)@[k].metadata.spotify_tokens == old(self)@[k].metadata.spotify_tokens,
            },
    {
        let k = match self.find_room(room_id) {
            None => {
                return Err(RoomError::RoomNotFound);
            },
            Some(k) => k,
        };
        let ghost old_rooms = self@;
        let room = &mut self.active_rooms[k];
        room.mark_threads_initiated();
        proof {
            let newr = self@[k as int];
            assert(old_rooms[k as int].wf());
            assert forall|x: int|
                0 <= x < newr.users@.len() implies has_user_id(
                old_rooms[k as int].users@,
                (#[trigger] newr.users@[x]).id@,
            ) || !user_id_in_rooms(old_rooms, newr.users@[x].id@) by {
                assert(old_rooms[k as int].users@[x].id@ == newr.users@[x].id@);
            }
            lemma_wf_update_room(old_rooms, k as int, newr);
            assert(self@ =~= old_rooms.update(k as int, newr));
        }
        Ok(())
    }

    /// Replaces a room's provider credentials, after a token refresh.
    pub fn set_room_tokens(&mut self, room_id: RoomID, tokens: crate::spotify::SpotifyTokens) -> (res:
        Result<(), RoomError>)
        requires
            old(self).wf(),
        ensures
            final(self).wf(),
            match res {
                Err(e) => *final(self) == *old(self) && e == RoomError::RoomNotFound
                    && !has_room_id(old(self)@, room_id),
                Ok(()) => exists|k: int|
                    #[trigger] is_room_index(old(self)@, room_id, k) && final(self)@.len() == old(self)@.len() && (forall|j: int|
                        0 <= j < old(self)@.len() && j != k ==> final(self)@[j] == old(self)@[j])
                        && same_except_metadata(final(self)@[k], old(self)@[k])
                        && final(self)@[k].metadata.spotify_tokens == tokens && final(self)@[k].metadata.inactive_since == old(self)@[k].metadata.inactive_since && final(self)@[k].metadata.are_threads_initiated == old(self)@[k].metadata.are_threads_initiated,
            },
    {
        let k = match self.find_room(room_id) {
            None => {
                return Err(RoomError::RoomNotFound);
            },
            Some(k) => k,
        };
        let ghost old_rooms = self@;
        let room = &mut self.active_rooms[k];
        room.set_tokens(tokens);
        proof {
            let newr = self@[k as int];
            assert(old_rooms[k as int].wf());
            assert forall|x: int|
                0 <= x < newr.users@.len() implies has_user_id(
                old_rooms[k as int].users@,
                (#[trigger] newr.users@[x]).id@,
            ) || !user_id_in_rooms(old_rooms, newr.users@[x].id@) by {
                assert(old_rooms[k as int].users@[x].id@ == newr.users@[x].id@);
            }
            lemma_wf_update_room(old_rooms, k as int, newr);
            assert(self@ =~= old_rooms.update(k as int, newr));
        }
        Ok(())
    }
}

/// A user id is a participant of at most one room of a well-formed
/// registry.
pub proof fn lemma_user_in_at_most_one_room(mgr: RoomManager, uid: Seq<char>, i: int, j: int)
    requires
        mgr.wf(),
        0 <= i < mgr@.len(),
        0 <= j < mgr@.len(),
        has_user_id(mgr@[i].users@, uid),
        has_user_id(mgr@[j].users@, uid),
    ensures
        i == j,
{
    if i != j {
        let a = choose|a: int| 0 <= a < mgr@[i].users@.len() && (#[trigger] mgr@[i].users@[a].id@)
            == uid;
        let b = choose|b: int| 0 <= b < mgr@[j].users@.len() && (#[trigger] mgr@[j].users@[b].id@)
            == uid;
        if i < j {
            assert(mgr@[i].users@[a].id@ != mgr@[j].users@[b].id@);
        } else {
            assert(mgr@[j].users@[b].id@ != mgr@[i].users@[a].id@);
        }
    }
}

/// After a ban the target stands on the room's ban list and is a
/// participant of no room at all — so `join_room` of the same user id in
/// that room, whose contract returns `UserBanned` exactly when the id is
/// unused and banned, can answer nothing else.
pub proof fn lemma_ban_then_join(
    pre: Seq<Room>,
    post: Seq<Room>,
    room_id: u128,
    author: Seq<char>,
    target: Seq<char>,
    reason: Seq<char>,
)
    requires
        room_ids_unique(pre),
        rooms_user_disjoint(pre),
        forall|i: int| 0 <= i < pre.len() ==> (#[trigger] pre[i]).wf(),
        ban_applied(pre, post, room_id, author, target, reason),
    ensures
        exists|k: int|
            #[trigger] is_room_index(post, room_id, k) && is_banned_id(
                post[k].banned_users@,
                target,
            ),
        !user_id_in_rooms(post, target),
{
    let (k, a, t) = choose|k: int, a: int, t: int|
        #![trigger is_room_index(pre, room_id, k), pre[k].users@[a], pre[k].users@[t]]
        is_room_index(pre, room_id, k) && is_user_index(pre[k].users@, author, a) && is_user_index(
            pre[k].users@,
            target,
            t,
        ) && post.len() == pre.len() && (forall|j: int|
            0 <= j < pre.len() && j != k ==> post[j] == pre[j]) && post[k].users@
            == pre[k].users@.remove(t) && !has_user_id(post[k].users@, target) && is_banned_id(
            post[k].banned_users@,
            target,
        ) && post[k].id == pre[k].id;
    assert(is_room_index(post, room_id, k)) by {
        assert forall|j: int| 0 <= j < k implies (#[trigger] post[j].id) != room_id by {
            assert(post[j] == pre[j]);
        }
    }
    if user_id_in_rooms(post, target) {
        let i = choose|i: int| 0 <= i < post.len() && has_user_id((#[trigger] post[i]).users@, target);
        if i == k {
            assert(!has_user_id(post[k].users@, target));
        } else {
            assert(post[i] == pre[i]);
            let b = choose|b: int|
                0 <= b < pre[i].users@.len() && (#[trigger] pre[i].users@[b].id@) == target;
            assert(pre[k].users@[t].id@ == target);
            if i < k {
                assert(pre[i].users@[b].id@ != pre[k].users@[t].id@);
            } else {
                assert(pre[k].users@[t].id@ != pre[i].users@[b].id@);
            }
        }
    }
}

/// A role table with the same contents resolves the same tags.
proof fn lemma_has_role_id_multiset(r1: Seq<Role>, r2: Seq<Role>, id: u128)
    requires
        r1.to_multiset() == r2.to_multiset(),
        has_role_id(r1, id),
    ensures
        has_role_id(r2, id),
{
    broadcast use vstd::seq_lib::group_to_multiset_ensures;

    let i = choose|i: int| 0 <= i < r1.len() && (#[trigger] r1[i].id) == id;
    assert(r1.contains(r1[i]));
    assert(r1.to_multiset().count(r1[i]) > 0);
    assert(r2.contains(r1[i]));
    let j = choose|j: int| 0 <= j < r2.len() && r2[j] == r1[i];
    assert(r2[j].id == id);
}

/// Filtering a role table keeps names unique and only keeps its own
/// roles.
proof fn lemma_filter_roles(roles: Seq<Role>, pred: spec_fn(Role) -> bool)
    requires
        names_unique(roles),
    ensures
        names_unique(roles.filter(pred)),
        forall|i: int|
            0 <= i < roles.filter(pred).len() ==> roles.contains(#[trigger] roles.filter(pred)[i]),
    decreases roles.len(),
{
    reveal(Seq::filter);
    if roles.len() > 0 {
        let dl = roles.drop_last();
        assert(names_unique(dl)) by {
            assert forall|i: int, j: int| 0 <= i < j < dl.len() implies dl[i].name@
                != dl[j].name@ by {
                assert(dl[i] == roles[i]);
                assert(dl[j] == roles[j]);
            }
        }
        lemma_filter_roles(dl, pred);
        let fdl = dl.filter(pred);
        let out = roles.filter(pred);
        assert forall|i: int| 0 <= i < out.len() implies roles.contains(#[trigger] out[i]) by {
            if pred(roles.last()) && i == out.len() - 1 {
                assert(out[i] == roles[roles.len() - 1]);
            } else {
                assert(out[i] == fdl[i]);
                assert(dl.contains(fdl[i]));
                let i0 = choose|i0: int| 0 <= i0 < dl.len() && dl[i0] == fdl[i];
                assert(roles[i0] == out[i]);
            }
        }
        assert forall|i: int, j: int| 0 <= i < j < out.len() implies out[i].name@
            != out[j].name@ by {
            if pred(roles.last()) && j == out.len() - 1 {
                assert(out[i] == fdl[i]);
                assert(dl.contains(fdl[i]));
                let i0 = choose|i0: int| 0 <= i0 < dl.len() && dl[i0] == fdl[i];
                assert(roles[i0].name@ != roles[roles.len() - 1].name@);
            } else {
                assert(out[i] == fdl[i]);
                assert(out[j] == fdl[j]);
            }
        }
    }
}

/// What a successful role creation did: one role with the given name and
/// permissions entered the table, which was re-sorted; nothing else of
/// the room moved.
pub open spec fn role_added(
    pre: Seq<Room>,
    post: Seq<Room>,
    room_id: u128,
    name: Seq<char>,
    permissions: RolePermission,
) -> bool {
    exists|k: int|
        #[trigger] is_room_index(pre, room_id, k) && !crate::role::has_role_named(
            pre[k].role_manager@,
            name,
        ) && post.len() == pre.len() && (forall|j: int|
            0 <= j < pre.len() && j != k ==> post[j] == pre[j]) && same_except_roles(
            post[k],
            pre[k],
        ) && crate::role::sorted_by_weight_desc(post[k].role_manager@)
            && post[k].role_manager@.len() == pre[k].role_manager@.len() + 1 && (exists|r: Role|
            r.name@ == name && r.permissions == permissions && post[k].role_manager@.to_multiset()
                == pre[k].role_manager@.to_multiset().insert(r))
}

/// What a successful rename did: the first role carrying the tag took the
/// new name, keeping its tag and permissions.
pub open spec fn role_renamed(
    pre: Seq<Room>,
    post: Seq<Room>,
    room_id: u128,
    role_id: u128,
    name: Seq<char>,
) -> bool {
    exists|k: int, ri: int|
        #![trigger is_room_index(pre, room_id, k), pre[k].role_manager@[ri]]
        is_room_index(pre, room_id, k) && is_first_id_index(pre[k].role_manager@, role_id, ri)
            && post.len() == pre.len() && (forall|j: int|
            0 <= j < pre.len() && j != k ==> post[j] == pre[j]) && same_except_roles(
            post[k],
            pre[k],
        ) && post[k].role_manager@.len() == pre[k].role_manager@.len()
            && post[k].role_manager@[ri].id == role_id && post[k].role_manager@[ri].name@ == name
            && post[k].role_manager@[ri].permissions == pre[k].role_manager@[ri].permissions && (
        forall|j: int|
            0 <= j < pre[k].role_manager@.len() && j != ri ==> post[k].role_manager@[j]
                == pre[k].role_manager@[j])
}

/// Why a rename was refused: some role other than the first carrier of
/// the tag already bears the requested name.
pub open spec fn rename_refused(
    rooms: Seq<Room>,
    room_id: u128,
    role_id: u128,
    name: Seq<char>,
) -> bool {
    exists|k: int, ri: int, j: int|
        #![trigger is_room_index(rooms, room_id, k), rooms[k].role_manager@[ri], rooms[k].role_manager@[j]]
        is_room_index(rooms, room_id, k) && is_first_id_index(rooms[k].role_manager@, role_id, ri)
            && 0 <= j < rooms[k].role_manager@.len() && j != ri
            && rooms[k].role_manager@[j].name@ == name
}

/// What a successful role deletion did: every role carrying the tag left
/// the table — unless some participant still held it, in which case
/// nothing moved.
pub open spec fn role_removed(pre: Seq<Room>, post: Seq<Room>, room_id: u128, role_id: u128) -> bool {
    exists|k: int|
        #[trigger] is_room_index(pre, room_id, k) && if exists|i: int|
            0 <= i < pre[k].users@.len() && (#[trigger] pre[k].users@[i]).role_id == role_id {
            post == pre
        } else {
            post.len() == pre.len() && (forall|j: int|
                0 <= j < pre.len() && j != k ==> post[j] == pre[j]) && same_except_roles(
                post[k],
                pre[k],
            ) && post[k].role_manager@ == pre[k].role_manager@.filter(|r: Role| r.id != role_id)
        }
}

/// Errors of a role-table operation routed through the registry: either
/// the room lookup or the table itself refused.
#[derive(Clone, Copy, Debug, PartialEq, Eq, Structural)]
pub enum RoleTableError {
    Room(RoomError),
    Role(RoleError),
}

impl RoomManager {
    /// Adds a role to a room's table, which is then re-sorted by
    /// descending weight.
    pub fn create_role(&mut self, room_id: RoomID, name: String, permissions: RolePermission) -> (res:
        Result<(), RoleTableError>)
        requires
            old(self).wf(),
        ensures
            final(self).wf(),
            match res {
                Err(e) => final(self)@ == old(self)@ && match e {
                    RoleTableError::Room(re) => re == RoomError::RoomNotFound && !has_room_id(
                        old(self)@,
                        room_id,
                    ),
                    RoleTableError::Role(re) => re == RoleError::NameAlreadyExists && exists|k: int|
                        #[trigger] is_room_index(old(self)@, room_id, k)
                            && crate::role::has_role_named(old(self)@[k].role_manager@, name@),
                },
                Ok(()) => role_added(old(self)@, final(self)@, room_id, name@, permissions),
            },
    {
        let k = match self.find_room(room_id) {
            None => {
                return Err(RoleTableError::Room(RoomError::RoomNotFound));
            },
            Some(k) => k,
        };
        let ghost old_rooms = self@;
        let room = &mut self.active_rooms[k];
        let res = room.role_manager.add_role(name, permissions);
        match res {
            Err(e) => {
                proof {
                    assert(self@ =~= old_rooms);
                }
                Err(RoleTableError::Role(e))
            },
            Ok(()) => {
                proof {
                    let oldr = old_rooms[k as int];
                    let newr = self@[k as int];
                    assert(oldr.wf());
                    assert(newr.wf()) by {
                        assert forall|i: int| 0 <= i < newr.users@.len() implies has_role_id(
                            newr.role_manager@,
                            #[trigger] newr.users@[i].role_id,
                        ) by {
                            assert(has_role_id(oldr.role_manager@, oldr.users@[i].role_id));
                            broadcast use vstd::seq_lib::group_to_multiset_ensures;

                            let r = choose|r: Role|
                                r.name@ == name@ && r.permissions == permissions
                                    && newr.role_manager@.to_multiset()
                                    == oldr.role_manager@.to_multiset().insert(r);
                            let w = choose|w: int|
                                0 <= w < oldr.role_manager@.len()
                                    && (#[trigger] oldr.role_manager@[w].id)
                                    == oldr.users@[i].role_id;
                            assert(oldr.role_manager@.contains(oldr.role_manager@[w]));
                            assert(oldr.role_manager@.to_multiset().count(oldr.role_manager@[w])
                                > 0);
                            assert(newr.role_manager@.to_multiset().count(oldr.role_manager@[w])
                                > 0);
                            assert(newr.role_manager@.contains(oldr.role_manager@[w]));
                            let v = choose|v: int|
                                0 <= v < newr.role_manager@.len() && newr.role_manager@[v]
                                    == oldr.role_manager@[w];
                            assert(newr.role_manager@[v].id == newr.users@[i].role_id);
                        }
                    }
                    assert forall|x: int|
                        0 <= x < newr.users@.len() implies has_user_id(
                        oldr.users@,
                        (#[trigger] newr.users@[x]).id@,
                    ) || !user_id_in_rooms(old_rooms, newr.users@[x].id@) by {
                        assert(oldr.users@[x].id@ == newr.users@[x].id@);
                    }
                    lemma_wf_update_room(old_rooms, k as int, newr);
                    assert(self@ =~= old_rooms.update(k as int, newr));
                }
                Ok(())
            },
        }
    }

    /// Renames a room's role, keeping its tag and permissions; a name
    /// held by a different role is refused.
    pub fn rename_role(&mut self, room_id: RoomID, role_id: u128, name: String) -> (res: Result<
        (),
        RoleTableError,
    >)
        requires
            old(self).wf(),
        ensures
            final(self).wf(),
            match res {
                Err(e) => final(self)@ == old(self)@ && match e {
                    RoleTableError::Room(re) => (re == RoomError::RoomNotFound && !has_room_id(
                        old(self)@,
                        room_id,
                    )) || (re == RoomError::RoleNotFound && exists|k: int|
                        #[trigger] is_room_index(old(self)@, room_id, k) && !has_role_id(
                            old(self)@[k].role_manager@,
                            role_id,
                        )),
                    RoleTableError::Role(re) => re == RoleError::NameAlreadyExists
                        && rename_refused(old(self)@, room_id, role_id, name@),
                },
                Ok(()) => role_renamed(old(self)@, final(self)@, room_id, role_id, name@),
            },
    {
        let k = match self.find_room(room_id) {
            None => {
                return Err(RoleTableError::Room(RoomError::RoomNotFound));
            },
            Some(k) => k,
        };
        let permissions = match self.active_rooms[k].role_manager.get_role_by_id(role_id) {
            None => {
                return Err(RoleTableError::Room(RoomError::RoleNotFound));
            },
            Some(role) => role.permissions,
        };
        let ghost old_rooms = self@;
        let room = &mut self.active_rooms[k];
        let res = room.role_manager.edit_role(role_id, name, permissions);
        match res {
            Err(e) => {
                proof {
                    assert(self@ =~= old_rooms);
                    let oldt = old_rooms[k as int].role_manager@;
                    let (ri, j) = choose|ri: int, j: int|
                        #[trigger] is_first_id_index(oldt, role_id, ri) && 0 <= j < oldt.len() && j
                            != ri && (#[trigger] oldt[j].name@) == name@;
                    assert(rename_refused(old_rooms, room_id, role_id, name@)) by {
                        assert(is_room_index(old_rooms, room_id, k as int));
                        assert(oldt[ri].id == role_id);
                    }
                }
                Err(RoleTableError::Role(e))
            },
            Ok(()) => {
                proof {
                    let oldr = old_rooms[k as int];
                    let newr = self@[k as int];
                    assert(oldr.wf());
                    let ri = choose|ri: int|
                        #[trigger] is_first_id_index(oldr.role_manager@, role_id, ri) && (forall|
                            j: int,
                        |
                            0 <= j < oldr.role_manager@.len() && j != ri
                                ==> oldr.role_manager@[j].name@ != name@) && newr.role_manager@
                            == oldr.role_manager@.update(
                            ri,
                            Role { id: role_id, name: name, permissions },
                        );
                    let ghost updated = Role {
                        id: role_id,
                        name: name,
                        permissions: oldr.role_manager@[ri].permissions,
                    };
                    assert(oldr.role_manager@[ri].permissions == permissions);
                    assert(newr.wf()) by {
                        assert forall|i: int| 0 <= i < newr.users@.len() implies has_role_id(
                            newr.role_manager@,
                            #[trigger] newr.users@[i].role_id,
                        ) by {
                            let w = choose|w: int|
                                0 <= w < oldr.role_manager@.len()
                                    && (#[trigger] oldr.role_manager@[w].id)
                                    == oldr.users@[i].role_id;
                            assert(newr.role_manager@[w].id == oldr.role_manager@[w].id);
                        }
                    }
                    assert forall|x: int|
                        0 <= x < newr.users@.len() implies has_user_id(
                        oldr.users@,
                        (#[trigger] newr.users@[x]).id@,
                    ) || !user_id_in_rooms(old_rooms, newr.users@[x].id@) by {
                        assert(oldr.users@[x].id@ == newr.users@[x].id@);
                    }
                    lemma_wf_update_room(old_rooms, k as int, newr);
                    assert(self@ =~= old_rooms.update(k as int, newr));
                }
                Ok(())
            },
        }
    }

    /// Removes a room's role by tag — unless some participant still holds
    /// it, in which case the table is left unchanged so every role id
    /// keeps resolving.
    pub fn delete_role(&mut self, room_id: RoomID, role_id: u128) -> (res: Result<(), RoomError>)
        requires
            old(self).wf(),
        ensures
            final(self).wf(),
            match res {
                Err(e) => *final(self) == *old(self) && e == RoomError::RoomNotFound
                    && !has_room_id(old(self)@, room_id),
                Ok(()) => role_removed(old(self)@, final(self)@, room_id, role_id),
            },
    {
        let k = match self.find_room(room_id) {
            None => {
                return Err(RoomError::RoomNotFound);
            },
            Some(k) => k,
        };
        let mut i: usize = 0;
        let n = self.active_rooms[k].users.len();
        while i < n
            invariant
                *self == *old(self),
                old(self).wf(),
                is_room_index(self@, room_id, k as int),
                k < self@.len(),
                n == self@[k as int].users@.len(),
                i <= n,
                forall|j: int| 0 <= j < i ==> (#[trigger] self@[k as int].users@[j]).role_id != role_id,
            decreases n - i,
        {
            if self.active_rooms[k].users[i].role_id == role_id {
                return Ok(());
            }
            i = i + 1;
        }
        let ghost old_rooms = self@;
        let room = &mut self.active_rooms[k];
        room.role_manager.remove_role(role_id);
        proof {
            let oldr = old_rooms[k as int];
            let newr = self@[k as int];
            assert(oldr.wf());
            lemma_filter_roles(oldr.role_manager@, |r: Role| r.id != role_id);
            assert(newr.wf()) by {
                assert forall|x: int| 0 <= x < newr.users@.len() implies has_role_id(
                    newr.role_manager@,
                    #[trigger] newr.users@[x].role_id,
                ) by {
                    let w = choose|w: int|
                        0 <= w < oldr.role_manager@.len() && (#[trigger] oldr.role_manager@[w].id)
                            == oldr.users@[x].role_id;
                    assert(oldr.users@[x].role_id != role_id);
                    broadcast use vstd::seq_lib::group_filter_ensures;

                    assert(newr.role_manager@.contains(oldr.role_manager@[w]));
                    let v = choose|v: int|
                        0 <= v < newr.role_manager@.len() && newr.role_manager@[v]
                            == oldr.role_manager@[w];
                    assert(newr.role_manager@[v].id == newr.users@[x].role_id);
                }
            }
            assert forall|x: int|
                0 <= x < newr.users@.len() implies has_user_id(
                oldr.users@,
                (#[trigger] newr.users@[x]).id@,
            ) || !user_id_in_rooms(old_rooms, newr.users@[x].id@) by {
                assert(oldr.users@[x].id@ == newr.users@[x].id@);
            }
            lemma_wf_update_room(old_rooms, k as int, newr);
            assert(self@ =~= old_rooms.update(k as int, newr));
        }
        Ok(())
    }
}

impl Default for RoomManager {
    /// An empty registry.
    fn default() -> (r: Self)
        ensures
            r@ == Seq::<Room>::empty(),
            r.wf(),
    {
        RoomManager { active_rooms: Vec::new() }
    }
}

} // verus!
