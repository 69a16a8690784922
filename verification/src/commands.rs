//! The command dispatcher: one inbound command is authorized against the
//! caller's role, classified by the state it touches, and routed either
//! into the registry or out to the provider.

use vstd::prelude::*;

use crate::role::{
    is_first_id_index, lemma_first_id_index_unique, role_weight, Role, RoleError, RolePermission,
};
use crate::room::{
    is_user_index, lemma_user_index_unique, room_equiv, user_role_is, Room, RoomError, RoomID,
    RoomUserID,
};
use crate::room_manager::{
    ban_applied, has_room_id, is_room_index, kick_applied, leave_applied, rename_refused,
    role_added, role_removed, role_renamed, RoleTableError, RoomManager,
};
use crate::spotify::SpotifyError;
use crate::spotify_web_utils::SpotifyTrack;

verus! {

/// Which provider state a command touched, as a bitset.
pub type SpotifyFetchT = u8;

/// The playback snapshot must be refreshed.
pub const SPOTIFY_FETCH_PLAYBACK: SpotifyFetchT = 1;

/// The track queues must be refreshed.
pub const SPOTIFY_FETCH_TRACKS_Q: SpotifyFetchT = 2;

/// Both must be refreshed.
pub const SPOTIFY_FETCH_ALL: SpotifyFetchT = 3;

/// What a command touched: nothing, the room state, or the room state
/// together with some provider state.
#[derive(Clone, Copy, Debug, PartialEq, Eq, Structural)]
pub enum StateImpact {
    Nothing,
    Room,
    Both(SpotifyFetchT),
}

/// A decoded inbound command.
#[derive(Debug)]
pub enum CommandType {
    GetRoom,
    Search(String),
    AddToQueue { track_id: String, track_name: String, track_duration: u32 },
    SetVolume(u8),
    PlayResume,
    Pause,
    SkipNext,
    SkipPrevious,
    SeekToPos(u64),
    Kick { user_id: RoomUserID, reason: String },
    Ban { user_id: RoomUserID, reason: String },
    LeaveRoom,
    CreateRole { name: String, permissions: Option<RolePermission> },
    RenameRole { role_id: u128, name: String },
    DeleteRole(u128),
}

/// A reply sent back over the wire.
#[derive(Debug)]
pub enum CommandResponse {
    Room(Room),
    SpotifySearchResult(Vec<SpotifyTrack>),
    RoomError(RoomError),
    RoleError(RoleError),
    GenericError(String),
    SpotifyRateLimited(u64),
    Kick { reason: String },
    Ban { reason: String },
    NewUserJoined(String),
}

/// A provider call the dispatcher asks the runtime to perform; the
/// decision is verified, the HTTP round trip is not.
#[derive(Debug)]
pub enum ProviderAction {
    Search(String),
    AddToQueue(String),
    SetVolume(u8),
    PlayResume,
    Pause,
    SkipNext,
    SkipPrevious,
    SeekToPos(u64),
}

/// What came back from a provider call.
#[derive(Debug)]
pub enum ProviderOutcome {
    SearchResults(Vec<SpotifyTrack>),
    Done,
    Failed(SpotifyError),
}

/// What the dispatcher decided: a finished reply, or a provider call for
/// the runtime to make and feed back through `provider_reply`.
#[derive(Debug)]
pub enum Dispatched {
    Done(Result<Option<CommandResponse>, CommandResponse>),
    Provider(ProviderAction),
}

/// The impact each command variant has, from the dispatch table.
pub open spec fn spec_impact(cmd: CommandType) -> StateImpact {
    match cmd {
        CommandType::GetRoom => StateImpact::Nothing,
        CommandType::Search(_) => StateImpact::Nothing,
        CommandType::DeleteRole(_) => StateImpact::Room,
        CommandType::CreateRole { .. } => StateImpact::Room,
        CommandType::RenameRole { .. } => StateImpact::Room,
        CommandType::LeaveRoom => StateImpact::Room,
        CommandType::Kick { .. } => StateImpact::Room,
        CommandType::Ban { .. } => StateImpact::Room,
        CommandType::AddToQueue { .. } => StateImpact::Both(SPOTIFY_FETCH_TRACKS_Q),
        CommandType::SetVolume(_) => StateImpact::Both(SPOTIFY_FETCH_PLAYBACK),
        CommandType::PlayResume => StateImpact::Both(SPOTIFY_FETCH_PLAYBACK),
        CommandType::Pause => StateImpact::Both(SPOTIFY_FETCH_PLAYBACK),
        CommandType::SeekToPos(_) => StateImpact::Both(SPOTIFY_FETCH_PLAYBACK),
        CommandType::SkipNext => StateImpact::Both(SPOTIFY_FETCH_ALL),
        CommandType::SkipPrevious => StateImpact::Both(SPOTIFY_FETCH_ALL),
    }
}

/// Whether this role suffices for this command, from the permission
/// table; renaming additionally demands a target strictly below the
/// actor.
pub open spec fn role_allows(room: Room, role: Role, cmd: CommandType) -> bool {
    match cmd {
        CommandType::GetRoom => true,
        CommandType::LeaveRoom => true,
        CommandType::Search(_) => role.permissions.can_add_song,
        CommandType::AddToQueue { .. } => role.permissions.can_add_song,
        CommandType::SetVolume(_) => role.permissions.can_use_controls,
        CommandType::PlayResume => role.permissions.can_use_controls,
        CommandType::Pause => role.permissions.can_use_controls,
        CommandType::SkipNext => role.permissions.can_use_controls,
        CommandType::SkipPrevious => role.permissions.can_use_controls,
        CommandType::SeekToPos(_) => role.permissions.can_use_controls,
        CommandType::Kick { .. } => role.permissions.can_manage_users,
        CommandType::Ban { .. } => role.permissions.can_manage_users,
        CommandType::DeleteRole(_) => role.permissions.can_manage_users
            && role.permissions.can_add_moderator,
        CommandType::CreateRole { .. } => role.permissions.can_manage_users
            && role.permissions.can_add_moderator,
        CommandType::RenameRole { role_id, .. } => role.permissions.can_manage_users
            && role.permissions.can_add_moderator && (exists|tk: int|
            #[trigger] is_first_id_index(room.role_manager@, role_id, tk) && role_weight(
                room.role_manager@[tk].permissions,
            ) < role_weight(role.permissions)),
    }
}

/// Whether the caller, in this registry, may issue this command: the room
/// exists, the caller is a participant, its role resolves, and the role
/// suffices.
pub open spec fn spec_has_permission(
    rooms: Seq<Room>,
    room_id: RoomID,
    uid: Seq<char>,
    cmd: CommandType,
) -> bool {
    exists|k: int|
        #[trigger] is_room_index(rooms, room_id, k) && (exists|role: Role|
            #[trigger] user_role_is(rooms[k], uid, role) && role_allows(rooms[k], role, cmd))
}

/// One command in flight: who issued it and in which room.
#[derive(Debug)]
pub struct Command {
    pub user_id: RoomUserID,
    pub room_id: RoomID,
}

impl Command {
    pub fn new(author_id: RoomUserID, room_id: RoomID) -> (r: Self)
        ensures
            r.user_id == author_id,
            r.room_id == room_id,
    {
        Command { user_id: author_id, room_id }
    }

    /// Whether the caller's role suffices for this command.
    pub fn has_permission_to(&self, mgr: &RoomManager, cmd: &CommandType) -> (b: bool)
        requires
            mgr.wf(),
        ensures
            b == spec_has_permission(mgr@, self.room_id, self.user_id@, *cmd),
    {
        let room = match mgr.get_room(&self.room_id) {
            None => {
                return false;
            },
            Some(room) => room,
        };
        let ghost k = choose|k: int| #[trigger] is_room_index(mgr@, self.room_id, k) && *room == mgr@[k];
        let role = match room.role_of_user(&self.user_id) {
            None => {
                proof {
                    assert(room.wf());
                    crate::room::lemma_no_user_role(*room, self.user_id@);
                    if spec_has_permission(mgr@, self.room_id, self.user_id@, *cmd) {
                        let k2 = choose|k2: int|
                            #[trigger] is_room_index(mgr@, self.room_id, k2) && (exists|r2: Role|
                                #[trigger] user_role_is(mgr@[k2], self.user_id@, r2)
                                    && role_allows(mgr@[k2], r2, *cmd));
                        crate::room_manager::lemma_room_index_unique(mgr@, self.room_id, k, k2);
                        let r2 = choose|r2: Role|
                            #[trigger] user_role_is(mgr@[k], self.user_id@, r2) && role_allows(
                                mgr@[k],
                                r2,
                                *cmd,
                            );
                        assert(false);
                    }
                }
                return false;
            },
            Some(role) => role,
        };
        let allowed: bool = match cmd {
            CommandType::GetRoom => true,
            CommandType::LeaveRoom => true,
            CommandType::Search(_) => role.permissions.can_add_song,
            CommandType::AddToQueue { .. } => role.permissions.can_add_song,
            CommandType::SetVolume(_) => role.permissions.can_use_controls,
            CommandType::PlayResume => role.permissions.can_use_controls,
            CommandType::Pause => role.permissions.can_use_controls,
            CommandType::SkipNext => role.permissions.can_use_controls,
            CommandType::SkipPrevious => role.permissions.can_use_controls,
            CommandType::SeekToPos(_) => role.permissions.can_use_controls,
            CommandType::Kick { .. } => role.permissions.can_manage_users,
            CommandType::Ban { .. } => role.permissions.can_manage_users,
            CommandType::DeleteRole(_) => role.permissions.can_manage_users
                && role.permissions.can_add_moderator,
            CommandType::CreateRole { .. } => role.permissions.can_manage_users
                && role.permissions.can_add_moderator,
            CommandType::RenameRole { role_id, .. } => {
                if !(role.permissions.can_manage_users && role.permissions.can_add_moderator) {
                    false
                } else {
                    match room.role_manager.get_role_by_id(*role_id) {
                        None => {
                            proof {
                                if exists|tk: int|
                                    #[trigger] is_first_id_index(
                                        room.role_manager@,
                                        *role_id,
                                        tk,
                                    ) && role_weight(room.role_manager@[tk].permissions)
                                        < role_weight(role.permissions) {
                                    let tk = choose|tk: int|
                                        #[trigger] is_first_id_index(
                                            room.role_manager@,
                                            *role_id,
                                            tk,
                                        ) && role_weight(room.role_manager@[tk].permissions)
                                            < role_weight(role.permissions);
                                    assert(crate::role::has_role_id(room.role_manager@, *role_id));
                                }
                            }
                            false
                        },
                        Some(target) => {
                            let ghost tk0 = choose|tk0: int|
                                0 <= tk0 < room.role_manager@.len() && *target
                                    == room.role_manager@[tk0]
                                    && (#[trigger] room.role_manager@[tk0].id) == *role_id && (
                                forall|j: int|
                                    0 <= j < tk0 ==> room.role_manager@[j].id != *role_id);
                            proof {
                                assert(is_first_id_index(room.role_manager@, *role_id, tk0));
                            }
                            let ok = target.weight() < role.weight();
                            proof {
                                if !ok {
                                    if exists|tk: int|
                                        #[trigger] is_first_id_index(
                                            room.role_manager@,
                                            *role_id,
                                            tk,
                                        ) && role_weight(room.role_manager@[tk].permissions)
                                            < role_weight(role.permissions) {
                                        let tk = choose|tk: int|
                                            #[trigger] is_first_id_index(
                                                room.role_manager@,
                                                *role_id,
                                                tk,
                                            ) && role_weight(room.role_manager@[tk].permissions)
                                                < role_weight(role.permissions);
                                        lemma_first_id_index_unique(
                                            room.role_manager@,
                                            *role_id,
                                            tk,
                                            tk0,
                                        );
                                        assert(false);
                                    }
                                }
                            }
                            ok
                        },
                    }
                }
            },
        };
        proof {
            assert(room.wf());
            if allowed {
                assert(user_role_is(mgr@[k], self.user_id@, *role));
                assert(role_allows(mgr@[k], *role, *cmd));
            } else {
                if spec_has_permission(mgr@, self.room_id, self.user_id@, *cmd) {
                    let k2 = choose|k2: int|
                        #[trigger] is_room_index(mgr@, self.room_id, k2) && (exists|r2: Role|
                            #[trigger] user_role_is(mgr@[k2], self.user_id@, r2) && role_allows(
                                mgr@[k2],
                                r2,
                                *cmd,
                            ));
                    crate::room_manager::lemma_room_index_unique(mgr@, self.room_id, k, k2);
                    let r2 = choose|r2: Role|
                        #[trigger] user_role_is(mgr@[k], self.user_id@, r2) && role_allows(
                            mgr@[k],
                            r2,
                            *cmd,
                        );
                    crate::room::lemma_user_role_unique(mgr@[k], self.user_id@, r2, *role);
                    assert(false);
                }
            }
        }
        allowed
    }
}

impl Command {
    /// Dispatches one command: authorizes it, classifies its impact, and
    /// either applies the registry mutation or hands back the provider
    /// call to make. A refused command answers `Unauthorized` and touches
    /// nothing.
    pub fn process(&self, mgr: &mut RoomManager, cmd: CommandType) -> (res: (
        Dispatched,
        StateImpact,
    ))
        requires
            old(mgr).wf(),
        ensures
            final(mgr).wf(),
            res.1 == if spec_has_permission(old(mgr)@, self.room_id, self.user_id@, cmd) {
                spec_impact(cmd)
            } else {
                StateImpact::Nothing
            },
            !spec_has_permission(old(mgr)@, self.room_id, self.user_id@, cmd) ==> final(mgr)@
                == old(mgr)@ && (res.0 matches Dispatched::Done(r0) && r0 == Err::<
                Option<CommandResponse>,
                CommandResponse,
            >(CommandResponse::RoomError(RoomError::Unauthorized))),
            spec_has_permission(old(mgr)@, self.room_id, self.user_id@, cmd) ==> match cmd {
                CommandType::GetRoom => final(mgr)@ == old(mgr)@ && (res.0 matches Dispatched::Done(
                    r0,
                ) && r0 matches Ok(Some(CommandResponse::Room(r))) && exists|k: int|
                    #[trigger] is_room_index(old(mgr)@, self.room_id, k) && room_equiv(
                        r,
                        old(mgr)@[k],
                    )),
                CommandType::Search(q) => final(mgr)@ == old(mgr)@ && (res.0 matches
                Dispatched::Provider(a) && a matches ProviderAction::Search(q2) && q2 == q),
                CommandType::AddToQueue { track_id, .. } => final(mgr)@ == old(mgr)@ && (res.0 matches
                Dispatched::Provider(a) && a matches ProviderAction::AddToQueue(t2) && t2
                    == track_id),
                CommandType::SetVolume(p) => final(mgr)@ == old(mgr)@ && (res.0 matches
                Dispatched::Provider(ProviderAction::SetVolume(p2)) && p2 == p),
                CommandType::PlayResume => final(mgr)@ == old(mgr)@ && res.0 == Dispatched::Provider(
                    ProviderAction::PlayResume,
                ),
                CommandType::Pause => final(mgr)@ == old(mgr)@ && res.0 == Dispatched::Provider(
                    ProviderAction::Pause,
                ),
                CommandType::SkipNext => final(mgr)@ == old(mgr)@ && res.0 == Dispatched::Provider(
                    ProviderAction::SkipNext,
                ),
                CommandType::SkipPrevious => final(mgr)@ == old(mgr)@ && res.0
                    == Dispatched::Provider(ProviderAction::SkipPrevious),
                CommandType::SeekToPos(pos) => final(mgr)@ == old(mgr)@ && (res.0 matches
                Dispatched::Provider(ProviderAction::SeekToPos(p2)) && p2 == pos),
                CommandType::Kick { user_id: target, reason } => match res.0 {
                    Dispatched::Done(r0) => match r0 {
                        Ok(None) => kick_applied(
                            old(mgr)@,
                            final(mgr)@,
                            self.room_id,
                            self.user_id@,
                            target@,
                            reason@,
                        ),
                        Err(CommandResponse::RoomError(e)) => e == RoomError::Unreachable && final(mgr)@ == old(mgr)@ && (exists|k: int|
                            #[trigger] is_room_index(old(mgr)@, self.room_id, k)
                                && !crate::room::has_user_id(old(mgr)@[k].users@, target@)),
                        _ => false,
                    },
                    _ => false,
                },
                CommandType::Ban { user_id: target, reason } => match res.0 {
                    Dispatched::Done(r0) => match r0 {
                        Ok(None) => ban_applied(
                            old(mgr)@,
                            final(mgr)@,
                            self.room_id,
                            self.user_id@,
                            target@,
                            reason@,
                        ),
                        Err(CommandResponse::RoomError(e)) => e == RoomError::Unreachable && final(mgr)@ == old(mgr)@ && (exists|k: int|
                            #[trigger] is_room_index(old(mgr)@, self.room_id, k)
                                && !crate::room::has_user_id(old(mgr)@[k].users@, target@)),
                        _ => false,
                    },
                    _ => false,
                },
                CommandType::LeaveRoom => res.0 matches Dispatched::Done(r0) && r0 matches Ok(None)
                    && leave_applied(old(mgr)@, final(mgr)@, self.room_id, self.user_id@),
                CommandType::CreateRole { name, permissions } => match permissions {
                    None => final(mgr)@ == old(mgr)@ && (res.0 matches Dispatched::Done(r0) && r0
                        matches Err(CommandResponse::GenericError(m)) && m@
                        == "Permissions missing from request"@),
                    Some(p) => match res.0 {
                        Dispatched::Done(r0) => match r0 {
                            Ok(None) => role_added(
                                old(mgr)@,
                                final(mgr)@,
                                self.room_id,
                                name@,
                                p,
                            ),
                            Err(CommandResponse::RoleError(e)) => e
                                == RoleError::NameAlreadyExists && final(mgr)@ == old(mgr)@ && (
                            exists|k: int|
                                #[trigger] is_room_index(old(mgr)@, self.room_id, k)
                                    && crate::role::has_role_named(
                                    old(mgr)@[k].role_manager@,
                                    name@,
                                )),
                            _ => false,
                        },
                        _ => false,
                    },
                },
                CommandType::RenameRole { role_id, name } => match res.0 {
                    Dispatched::Done(r0) => match r0 {
                        Ok(None) => role_renamed(
                            old(mgr)@,
                            final(mgr)@,
                            self.room_id,
                            role_id,
                            name@,
                        ),
                        Err(CommandResponse::RoleError(e)) => e == RoleError::NameAlreadyExists
                            && final(mgr)@ == old(mgr)@ && rename_refused(
                            old(mgr)@,
                            self.room_id,
                            role_id,
                            name@,
                        ),
                        _ => false,
                    },
                    _ => false,
                },
                CommandType::DeleteRole(role_id) => res.0 matches Dispatched::Done(r0) && r0
                    matches Ok(None) && role_removed(old(mgr)@, final(mgr)@, self.room_id, role_id),
            },
    {
        let permitted = self.has_permission_to(mgr, &cmd);
        if !permitted {
            return (
                Dispatched::Done(Err(CommandResponse::RoomError(RoomError::Unauthorized))),
                StateImpact::Nothing,
            );
        }
        let ghost pre = mgr@;
        let ghost kperm = choose|k: int|
            #[trigger] is_room_index(pre, self.room_id, k) && (exists|role: Role|
                #[trigger] user_role_is(pre[k], self.user_id@, role) && role_allows(
                    pre[k],
                    role,
                    cmd,
                ));
        let impact: StateImpact = match &cmd {
            CommandType::GetRoom => StateImpact::Nothing,
            CommandType::Search(_) => StateImpact::Nothing,
            CommandType::DeleteRole(_) => StateImpact::Room,
            CommandType::CreateRole { .. } => StateImpact::Room,
            CommandType::RenameRole { .. } => StateImpact::Room,
            CommandType::LeaveRoom => StateImpact::Room,
            CommandType::Kick { .. } => StateImpact::Room,
            CommandType::Ban { .. } => StateImpact::Room,
            CommandType::AddToQueue { .. } => StateImpact::Both(SPOTIFY_FETCH_TRACKS_Q),
            CommandType::SetVolume(_) => StateImpact::Both(SPOTIFY_FETCH_PLAYBACK),
            CommandType::PlayResume => StateImpact::Both(SPOTIFY_FETCH_PLAYBACK),
            CommandType::Pause => StateImpact::Both(SPOTIFY_FETCH_PLAYBACK),
            CommandType::SeekToPos(_) => StateImpact::Both(SPOTIFY_FETCH_PLAYBACK),
            CommandType::SkipNext => StateImpact::Both(SPOTIFY_FETCH_ALL),
            CommandType::SkipPrevious => StateImpact::Both(SPOTIFY_FETCH_ALL),
        };
        let out: Dispatched = match cmd {
            CommandType::GetRoom => {
                match mgr.get_room(&self.room_id) {
                    None => {
                        proof {
                            assert(false);
                        }
                        Dispatched::Done(Err(CommandResponse::RoomError(RoomError::RoomNotFound)))
                    },
                    Some(room) => {
                        let r = room.clone();
                        Dispatched::Done(Ok(Some(CommandResponse::Room(r))))
                    },
                }
            },
            CommandType::Search(name) => Dispatched::Provider(ProviderAction::Search(name)),
            CommandType::AddToQueue { track_id, track_name: _, track_duration: _ } => {
                Dispatched::Provider(ProviderAction::AddToQueue(track_id))
            },
            CommandType::SetVolume(p) => Dispatched::Provider(ProviderAction::SetVolume(p)),
            CommandType::PlayResume => Dispatched::Provider(ProviderAction::PlayResume),
            CommandType::Pause => Dispatched::Provider(ProviderAction::Pause),
            CommandType::SkipNext => Dispatched::Provider(ProviderAction::SkipNext),
            CommandType::SkipPrevious => Dispatched::Provider(ProviderAction::SkipPrevious),
            CommandType::SeekToPos(pos) => Dispatched::Provider(ProviderAction::SeekToPos(pos)),
            CommandType::Kick { user_id: target, reason } => {
                match mgr.kick_user(self.room_id, &self.user_id, &target, reason) {
                    Ok(()) => Dispatched::Done(Ok(None)),
                    Err(e) => {
                        proof {
                            lemma_permission_implies_present(pre, self.room_id, self.user_id@, cmd, kperm);
                            if e == RoomError::RoomNotFound {
                                assert(false);
                            }
                            if e == RoomError::Unreachable {
                                let k3 = choose|k3: int|
                                    #[trigger] is_room_index(pre, self.room_id, k3) && (
                                    !crate::room::has_user_id(pre[k3].users@, self.user_id@)
                                        || !crate::room::has_user_id(pre[k3].users@, target@));
                                crate::room_manager::lemma_room_index_unique(
                                    pre,
                                    self.room_id,
                                    k3,
                                    kperm,
                                );
                            }
                        }
                        Dispatched::Done(Err(CommandResponse::RoomError(e)))
                    },
                }
            },
            CommandType::Ban { user_id: target, reason } => {
                match mgr.ban_user(self.room_id, &self.user_id, &target, reason) {
                    Ok(()) => Dispatched::Done(Ok(None)),
                    Err(e) => {
                        proof {
                            lemma_permission_implies_present(pre, self.room_id, self.user_id@, cmd, kperm);
                            if e == RoomError::RoomNotFound {
                                assert(false);
                            }
                            if e == RoomError::Unreachable {
                                let k3 = choose|k3: int|
                                    #[trigger] is_room_index(pre, self.room_id, k3) && (
                                    !crate::room::has_user_id(pre[k3].users@, self.user_id@)
                                        || !crate::room::has_user_id(pre[k3].users@, target@));
                                crate::room_manager::lemma_room_index_unique(
                                    pre,
                                    self.room_id,
                                    k3,
                                    kperm,
                                );
                            }
                        }
                        Dispatched::Done(Err(CommandResponse::RoomError(e)))
                    },
                }
            },
            CommandType::LeaveRoom => {
                match mgr.leave_room(self.room_id, self.user_id.clone()) {
                    Ok(()) => Dispatched::Done(Ok(None)),
                    Err(e) => {
                        proof {
                            lemma_permission_implies_present(pre, self.room_id, self.user_id@, cmd, kperm);
                            if e == RoomError::RoomNotFound {
                                assert(has_room_id(pre, self.room_id)) by {
                                    assert(pre[kperm].id == self.room_id);
                                }
                            } else if e == RoomError::RoomUserNotFound {
                                let k3 = choose|k3: int|
                                    #[trigger] is_room_index(pre, self.room_id, k3)
                                        && !crate::room::has_user_id(pre[k3].users@, self.user_id@);
                                crate::room_manager::lemma_room_index_unique(
                                    pre,
                                    self.room_id,
                                    k3,
                                    kperm,
                                );
                            } else {
                                let (k3, a3) = choose|k3: int, a3: int|
                                    #![trigger is_room_index(pre, self.room_id, k3), pre[k3].users@[a3]]
                                    is_room_index(pre, self.room_id, k3) && is_user_index(
                                        pre[k3].users@,
                                        self.user_id@,
                                        a3,
                                    ) && !crate::role::has_role_id(
                                        pre[k3].role_manager@,
                                        pre[k3].users@[a3].role_id,
                                    );
                                crate::room_manager::lemma_room_index_unique(
                                    pre,
                                    self.room_id,
                                    k3,
                                    kperm,
                                );
                                let a = choose|a: int|
                                    is_user_index(pre[kperm].users@, self.user_id@, a)
                                        && crate::role::has_role_id(
                                        pre[kperm].role_manager@,
                                        #[trigger] pre[kperm].users@[a].role_id,
                                    );
                                assert(pre[kperm].wf());
                                lemma_user_index_unique(pre[kperm].users@, self.user_id@, a3, a);
                            }
                            assert(false);
                        }
                        Dispatched::Done(Err(CommandResponse::RoomError(e)))
                    },
                }
            },
            CommandType::CreateRole { name, permissions } => {
                match permissions {
                    None => Dispatched::Done(
                        Err(
                            CommandResponse::GenericError(
                                "Permissions missing from request".to_owned(),
                            ),
                        ),
                    ),
                    Some(p) => {
                        match mgr.create_role(self.room_id, name, p) {
                            Ok(()) => Dispatched::Done(Ok(None)),
                            Err(RoleTableError::Role(e)) => Dispatched::Done(
                                Err(CommandResponse::RoleError(e)),
                            ),
                            Err(RoleTableError::Room(e)) => {
                                proof {
                                    assert(false);
                                }
                                Dispatched::Done(Err(CommandResponse::RoomError(e)))
                            },
                        }
                    },
                }
            },
            CommandType::RenameRole { role_id, name } => {
                match mgr.rename_role(self.room_id, role_id, name) {
                    Ok(()) => Dispatched::Done(Ok(None)),
                    Err(RoleTableError::Role(e)) => Dispatched::Done(
                        Err(CommandResponse::RoleError(e)),
                    ),
                    Err(RoleTableError::Room(e)) => {
                        proof {
                            if e == RoomError::RoleNotFound {
                                let k3 = choose|k3: int|
                                    #[trigger] is_room_index(pre, self.room_id, k3)
                                        && !crate::role::has_role_id(
                                        pre[k3].role_manager@,
                                        role_id,
                                    );
                                crate::room_manager::lemma_room_index_unique(
                                    pre,
                                    self.room_id,
                                    k3,
                                    kperm,
                                );
                                let rp = choose|rp: Role|
                                    #[trigger] user_role_is(pre[kperm], self.user_id@, rp)
                                        && role_allows(pre[kperm], rp, cmd);
                                let tk = choose|tk: int|
                                    #[trigger] is_first_id_index(
                                        pre[kperm].role_manager@,
                                        role_id,
                                        tk,
                                    ) && role_weight(pre[kperm].role_manager@[tk].permissions)
                                        < role_weight(rp.permissions);
                                assert(pre[kperm].role_manager@[tk].id == role_id);
                            }
                            assert(false);
                        }
                        Dispatched::Done(Err(CommandResponse::RoomError(e)))
                    },
                }
            },
            CommandType::DeleteRole(role_id) => {
                match mgr.delete_role(self.room_id, role_id) {
                    Ok(()) => Dispatched::Done(Ok(None)),
                    Err(e) => {
                        proof {
                            assert(false);
                        }
                        Dispatched::Done(Err(CommandResponse::RoomError(e)))
                    },
                }
            },
        };
        (out, impact)
    }
}

/// A permitted caller stands in the room the permission named, and its
/// role id resolves there.
proof fn lemma_permission_implies_present(
    rooms: Seq<Room>,
    room_id: RoomID,
    uid: Seq<char>,
    cmd: CommandType,
    k: int,
)
    requires
        is_room_index(rooms, room_id, k),
        exists|role: Role| #[trigger] user_role_is(rooms[k], uid, role) && role_allows(
            rooms[k],
            role,
            cmd,
        ),
    ensures
        has_room_id(rooms, room_id),
        crate::room::has_user_id(rooms[k].users@, uid),
        exists|a: int|
            is_user_index(rooms[k].users@, uid, a) && crate::role::has_role_id(
                rooms[k].role_manager@,
                #[trigger] rooms[k].users@[a].role_id,
            ),
{
    assert(rooms[k].id == room_id);
    let rp = choose|rp: Role| #[trigger] user_role_is(rooms[k], uid, rp) && role_allows(
        rooms[k],
        rp,
        cmd,
    );
    let (a1, k1) = choose|a1: int, k1: int|
        #![trigger rooms[k].users@[a1], rooms[k].role_manager@[k1]]
        is_user_index(rooms[k].users@, uid, a1) && is_first_id_index(
            rooms[k].role_manager@,
            rooms[k].users@[a1].role_id,
            k1,
        ) && rooms[k].role_manager@[k1] == rp;
    assert(rooms[k].users@[a1].id@ == uid);
    assert(rooms[k].role_manager@[k1].id == rooms[k].users@[a1].role_id);
}

/// Maps what the provider answered into the reply the caller receives:
/// search results become a typed payload, a completed control call has no
/// payload, and a failure carries either the provider's message or the
/// limiter's remaining seconds.
pub fn provider_reply(outcome: ProviderOutcome) -> (r: Result<
    Option<CommandResponse>,
    CommandResponse,
>)
    ensures
        match outcome {
            ProviderOutcome::SearchResults(ts) => r matches Ok(Some(
                CommandResponse::SpotifySearchResult(ts2),
            )) && ts2 == ts,
            ProviderOutcome::Done => r matches Ok(None),
            ProviderOutcome::Failed(e) => match e {
                SpotifyError::Generic(m) => r matches Err(CommandResponse::GenericError(m2)) && m2
                    == m,
                SpotifyError::RateLimited(t) => r == Err::<
                    Option<CommandResponse>,
                    CommandResponse,
                >(CommandResponse::SpotifyRateLimited(t)),
            },
        },
{
    match outcome {
        ProviderOutcome::SearchResults(ts) => Ok(Some(CommandResponse::SpotifySearchResult(ts))),
        ProviderOutcome::Done => Ok(None),
        ProviderOutcome::Failed(SpotifyError::Generic(m)) => Err(CommandResponse::GenericError(m)),
        ProviderOutcome::Failed(SpotifyError::RateLimited(t)) => Err(
            CommandResponse::SpotifyRateLimited(t),
        ),
    }
}

} // verus!
